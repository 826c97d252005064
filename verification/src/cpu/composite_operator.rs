//! Sums of operators.
//!
//! All parts map between the same global vectors. The adjoint of a sum is the sum of the adjoints.
//! A sum has no matrix of its own, so only its diagonal can be assembled.

use vstd::prelude::*;

use crate::cpu::vector::CpuVector;
#[allow(unused_imports)]
use crate::cpu::vector::{host_target, lemma_host_target};
use crate::csr::{CsrMatrix, CsrPattern};
use crate::error::{ErrorKind, ReedError, ReedResult};
#[allow(unused_imports)]
use crate::error::refused;
use crate::matrix::CeedMatrix;
use crate::operator::{
    operator_error, ElementInverse, FieldBuffer, OperatorAssembleKind, OperatorTrait,
    OperatorTransposeRequest,
};
#[allow(unused_imports)]
use crate::operator::{
    buffer_targets, buffer_views, BufferTarget, BufferView, NamedOutcome, NamedSink, Sink,
};
use crate::scalar::Real;
#[allow(unused_imports)]
use crate::scalar::{
    col_sums, exact_ring, inner, lemma_plus_assoc, lemma_plus_comm, lemma_plus_zero, lemma_sum_ext,
    lemma_sum_scale, lemma_sum_swap, lemma_times_comm, products, row_sums, sum,
};
use crate::text::Message;
#[allow(unused_imports)]
use crate::text::decimal;
use crate::vector::VectorTrait;
#[allow(unused_imports)]
use crate::vector::{lemma_same_target, same_vector, Outcome, WriteTarget};

verus! {

// ── sums of parts ───────────────────────────────────────────────────────────

/// Parts `i..` run one after the other on a vector that starts as `y`; the first failure ends
/// the run.
pub open spec fn run_parts<T>(parts: Seq<spec_fn(Seq<T>) -> Outcome<T>>, i: int, y: Seq<T>) -> Outcome<
    T,
>
    decreases parts.len() - i,
{
    if i >= parts.len() {
        Outcome::done(y)
    } else {
        let o = parts[i](y);
        if o.error is Some {
            o
        } else {
            run_parts(parts, i + 1, o.values)
        }
    }
}

/// Parts `i..` run one after the other on named vectors.
pub open spec fn run_named<T>(
    parts: Seq<spec_fn(Seq<BufferView<T>>) -> NamedOutcome<T>>,
    i: int,
    outputs: Seq<BufferView<T>>,
) -> NamedOutcome<T>
    decreases parts.len() - i,
{
    if i >= parts.len() {
        NamedOutcome { error: None, outputs }
    } else {
        let o = parts[i](outputs);
        if o.error is Some {
            o
        } else {
            run_named(parts, i + 1, o.outputs)
        }
    }
}

/// A zero vector.
pub open spec fn zero_values<T: Real>(n: nat) -> Seq<T> {
    Seq::new(n, |i: int| T::zero_val())
}

/// The first of the named vectors, from `i` on, that cannot be set to zero.
pub open spec fn first_unclear<T: Real>(b: Seq<BufferTarget<T>>, i: int) -> int
    decreases b.len() - i,
{
    if i >= b.len() || (b[i].vector.filled)(T::zero_val()).error is Some {
        i
    } else {
        first_unclear(b, i + 1)
    }
}

/// The named vectors after the first `n` of them were set to zero.
pub open spec fn cleared_views<T: Real>(b: Seq<BufferTarget<T>>, n: int) -> Seq<BufferView<T>> {
    Seq::new(
        b.len(),
        |i: int|
            BufferView {
                name: b[i].name,
                values: if i < n {
                    (b[i].vector.filled)(T::zero_val()).values
                } else {
                    b[i].vector.values
                },
            },
    )
}

/// Sets named vectors to zero one after the other; the first failure ends it.
pub open spec fn cleared<T: Real>(b: Seq<BufferTarget<T>>) -> NamedOutcome<T> {
    let stop = first_unclear(b, 0);
    NamedOutcome {
        error: if stop < b.len() {
            (b[stop].vector.filled)(T::zero_val()).error
        } else {
            None
        },
        outputs: cleared_views(b, stop + 1),
    }
}

/// Sets a vector to zero and goes on with what is then in it, unless that fails.
pub open spec fn from_zero<T: Real>(
    v: WriteTarget<T>,
    next: spec_fn(Seq<T>) -> Outcome<T>,
) -> Outcome<T> {
    let o = (v.filled)(T::zero_val());
    if o.error is Some {
        o
    } else {
        next(o.values)
    }
}

/// The entrywise sum.
pub open spec fn added<T: Real>(a: Seq<T>, b: Seq<T>) -> Seq<T> {
    Seq::new(a.len(), |i: int| a[i].plus(b[i]))
}

/// Sums diagonals: each part overwrites a zero vector, which is then added to `acc`.
pub open spec fn run_diagonals<T: Real>(
    parts: Seq<spec_fn(Seq<T>) -> Outcome<T>>,
    i: int,
    acc: Seq<T>,
) -> Outcome<T>
    decreases parts.len() - i,
{
    if i >= parts.len() {
        Outcome::done(acc)
    } else {
        let o = parts[i](zero_values(acc.len()));
        if o.error is Some {
            Outcome { error: o.error, values: acc }
        } else {
            run_diagonals(parts, i + 1, added(acc, o.values))
        }
    }
}

/// Lengths on which the parts agree: `Err` with the first two that differ, else the common one if
/// any part knows it.
pub open spec fn merged_hints(hints: Seq<Option<usize>>, i: int, expected: Option<usize>) -> Result<
    Option<usize>,
    (usize, usize),
>
    decreases hints.len() - i,
{
    if i >= hints.len() {
        Ok(expected)
    } else {
        match (hints[i], expected) {
            (None, _) => merged_hints(hints, i + 1, expected),
            (Some(n), None) => merged_hints(hints, i + 1, Some(n)),
            (Some(n), Some(e)) => if e != n {
                Err((e, n))
            } else {
                merged_hints(hints, i + 1, expected)
            },
        }
    }
}

proof fn lemma_merged_hints(hints: Seq<Option<usize>>, i: int, expected: Option<usize>)
    requires
        0 <= i <= hints.len(),
    ensures
        match merged_hints(hints, i, expected) {
            Ok(Some(n)) => {
                &&& expected is Some ==> expected == Some(n)
                &&& forall|k: int|
                    i <= k < hints.len() && #[trigger] hints[k] is Some ==> hints[k] == Some(n)
                &&& expected is Some || exists|k: int|
                    i <= k < hints.len() && #[trigger] hints[k] == Some(n)
            },
            Ok(None) => expected is None && forall|k: int|
                i <= k < hints.len() ==> #[trigger] hints[k] is None,
            Err((e, n)) => {
                &&& e != n
                &&& expected == Some(e) || exists|k: int|
                    i <= k < hints.len() && #[trigger] hints[k] == Some(e)
                &&& exists|k: int| i <= k < hints.len() && #[trigger] hints[k] == Some(n)
            },
        },
    decreases hints.len() - i,
{
    if i < hints.len() {
        match (hints[i], expected) {
            (Some(n), None) => lemma_merged_hints(hints, i + 1, Some(n)),
            _ => lemma_merged_hints(hints, i + 1, expected),
        }
        assert(hints[i] == hints[i]);
    }
}

/// The parts agree on a length where some part knows it and no part knows another; they know none
/// where no part does. Otherwise two different lengths that parts know are named.
pub proof fn law_known_lengths_agree(hints: Seq<Option<usize>>)
    ensures
        match merged_hints(hints, 0, None) {
            Ok(Some(n)) => {
                &&& exists|k: int| 0 <= k < hints.len() && #[trigger] hints[k] == Some(n)
                &&& forall|k: int|
                    0 <= k < hints.len() && #[trigger] hints[k] is Some ==> hints[k] == Some(n)
            },
            Ok(None) => forall|k: int| 0 <= k < hints.len() ==> #[trigger] hints[k] is None,
            Err((e, n)) => {
                &&& e != n
                &&& exists|k: int| 0 <= k < hints.len() && #[trigger] hints[k] == Some(e)
                &&& exists|k: int| 0 <= k < hints.len() && #[trigger] hints[k] == Some(n)
            },
        },
{
    lemma_merged_hints(hints, 0, None);
}

/// The message about lengths that differ.
pub open spec fn hint_message(e: usize, n: usize) -> Seq<char> {
    "composite sub-operators disagree on global vector length: "@ + decimal(e as nat) + " vs "@
        + decimal(n as nat)
}

/// The common length, if the parts agree and any knows it.
pub open spec fn common_hint(hints: Seq<Option<usize>>) -> Option<usize> {
    match merged_hints(hints, 0, None) {
        Ok(h) => h,
        Err(_) => None,
    }
}

fn merge_hint(expected: Option<usize>, hint: Option<usize>) -> (r: Result<
    Option<usize>,
    (usize, usize),
>)
    ensures
        match (hint, expected) {
            (None, _) => r == Ok::<_, (usize, usize)>(expected),
            (Some(n), None) => r == Ok::<_, (usize, usize)>(Some(n)),
            (Some(n), Some(e)) => if e != n {
                r == Err::<Option<usize>, _>((e, n))
            } else {
                r == Ok::<_, (usize, usize)>(expected)
            },
        },
{
    match (hint, expected) {
        (None, _) => Ok(expected),
        (Some(n), None) => Ok(Some(n)),
        (Some(n), Some(e)) => if e != n {
            Err((e, n))
        } else {
            Ok(expected)
        },
    }
}

fn clear_buffers<T: Real>(outputs: &mut Vec<FieldBuffer<T>>) -> (r: ReedResult<()>)
    ensures
        buffer_views(final(outputs)@) == cleared(buffer_targets(old(outputs)@)).outputs,
        cleared(buffer_targets(old(outputs)@)).reported(r),
{
    let ghost targets = buffer_targets(outputs@);
    let n: usize = outputs.len();
    for i in 0..n
        invariant
            n == outputs@.len(),
            targets == buffer_targets(old(outputs)@),
            targets.len() == n,
            first_unclear(targets, 0) == first_unclear(targets, i as int),
            forall|k: int|
                0 <= k < n ==> (#[trigger] outputs@[k])@ == cleared_views(targets, i as int)[k],
            forall|k: int| i <= k < n ==> #[trigger] outputs@[k] == old(outputs)@[k],
    {
        let ghost before = outputs@;
        let r = outputs[i].vector.set_value(T::zero());
        proof {
            assert(before[i as int] == old(outputs)@[i as int]);
            assert forall|k: int| 0 <= k < n implies (#[trigger] outputs@[k])@ == cleared_views(
                targets,
                i + 1,
            )[k] by {
                if k != i {
                    assert(outputs@[k] == before[k]);
                    assert(before[k]@ == cleared_views(targets, i as int)[k]);
                }
            }
        }
        if let Err(e) = r {
            assert(buffer_views(outputs@) =~= cleared_views(targets, i + 1));
            return Err(e);
        }
    }
    assert(buffer_views(outputs@) =~= cleared_views(targets, n + 1));
    Ok(())
}

fn add_to<T: Real>(acc: &mut [T], b: &[T])
    requires
        b@.len() == old(acc)@.len(),
    ensures
        final(acc)@ == added(old(acc)@, b@),
{
    let ghost before = acc@;
    let n: usize = acc.len();
    for i in 0..n
        invariant
            n == acc@.len(),
            acc@.len() == before.len(),
            b@.len() == before.len(),
            forall|k: int| 0 <= k < i ==> #[trigger] acc@[k] == before[k].plus(b@[k]),
            forall|k: int| i <= k < n ==> #[trigger] acc@[k] == before[k],
    {
        acc[i] = acc[i].add(b[i]);
    }
    assert(acc@ =~= added(before, b@));
}

/// Column `k` of a list of vectors.
pub open spec fn column<T>(shares: Seq<Seq<T>>, k: int) -> spec_fn(int) -> T {
    |i: int| shares[i][k]
}

/// Parts that each add a fixed share leave the sum of the shares, in exact arithmetic.
pub proof fn law_parts_sum<T: Real>(
    parts: Seq<spec_fn(Seq<T>) -> Outcome<T>>,
    shares: Seq<Seq<T>>,
    y: Seq<T>,
)
    requires
        exact_ring::<T>(),
        parts.len() == shares.len(),
        forall|i: int, z: Seq<T>|
            0 <= i < parts.len() && z.len() == y.len() ==> #[trigger] parts[i](z) == Outcome::done(
                added(z, shares[i]),
            ),
    ensures
        run_parts(parts, 0, y) == Outcome::done(
            Seq::new(
                y.len(),
                |k: int| y[k].plus(sum(parts.len() as int, column(shares, k))),
            ),
        ),
{
    let start = Seq::new(y.len(), |k: int| y[k].plus(sum(0, column(shares, k))));
    assert forall|k: int| 0 <= k < y.len() implies #[trigger] y[k] == start[k] by {
        lemma_plus_zero(y[k]);
    }
    assert(start =~= y);
    lemma_parts_sum_from(parts, shares, y, 0);
}

/// The sum of the shares.
pub open spec fn total<T: Real>(shares: Seq<Seq<T>>, len: nat) -> Seq<T> {
    Seq::new(len, |k: int| sum(shares.len() as int, column(shares, k)))
}

/// The inner product with a sum is the sum of the inner products.
proof fn lemma_inner_total<T: Real>(shares: Seq<Seq<T>>, y: Seq<T>)
    requires
        exact_ring::<T>(),
        forall|i: int| 0 <= i < shares.len() ==> (#[trigger] shares[i]).len() == y.len(),
    ensures
        inner(total(shares, y.len()), y) == sum(
            shares.len() as int,
            |i: int| inner(shares[i], y),
        ),
{
    let (n, m) = (shares.len() as int, y.len() as int);
    let f = |i: int, k: int| shares[i][k].times(y[k]);
    lemma_sum_swap(n, m, f);
    let (g, rows) = (|i: int| inner(shares[i], y), row_sums(m, f));
    assert forall|i: int| 0 <= i < n implies #[trigger] rows(i) == g(i) by {
        lemma_sum_ext(m, |k: int| f(i, k), products(shares[i], y));
    }
    lemma_sum_ext(n, rows, g);
    let (h, cols) = (products(total(shares, y.len()), y), col_sums(n, f));
    assert forall|k: int| 0 <= k < m implies #[trigger] cols(k) == h(k) by {
        let (a, b) = (column(shares, k), |i: int| f(i, k));
        assert forall|i: int| 0 <= i < n implies #[trigger] b(i) == y[k].times(a(i)) by {
            lemma_times_comm(shares[i][k], y[k]);
        }
        lemma_sum_scale(n, y[k], a, b);
        lemma_times_comm(y[k], sum(n, a));
    }
    lemma_sum_ext(m, cols, h);
}

/// Where each part has an adjoint, the sum of the adjoints is the adjoint of the sum: `forward`
/// holds what the parts make of `x`, and `backward` what their adjoints make of `y`.
pub proof fn law_sum_of_adjoints<T: Real>(
    forward: Seq<Seq<T>>,
    backward: Seq<Seq<T>>,
    x: Seq<T>,
    y: Seq<T>,
)
    requires
        exact_ring::<T>(),
        forward.len() == backward.len(),
        forall|i: int| 0 <= i < forward.len() ==> (#[trigger] forward[i]).len() == y.len(),
        forall|i: int| 0 <= i < backward.len() ==> (#[trigger] backward[i]).len() == x.len(),
        forall|i: int|
            0 <= i < forward.len() ==> inner(#[trigger] forward[i], y) == inner(x, backward[i]),
    ensures
        inner(total(forward, y.len()), y) == inner(x, total(backward, x.len())),
{
    let n = forward.len() as int;
    lemma_inner_total(forward, y);
    lemma_inner_total(backward, x);
    let (f, g) = (|i: int| inner(forward[i], y), |i: int| inner(backward[i], x));
    assert forall|i: int| 0 <= i < n implies #[trigger] f(i) == g(i) by {
        assert(forward[i].len() == y.len());
        lemma_inner_comm(backward[i], x);
    }
    lemma_sum_ext(n, f, g);
    lemma_inner_comm(total(backward, x.len()), x);
}

/// The order of an inner product does not matter.
proof fn lemma_inner_comm<T: Real>(a: Seq<T>, b: Seq<T>)
    requires
        exact_ring::<T>(),
        a.len() == b.len(),
    ensures
        inner(a, b) == inner(b, a),
{
    let (f, g) = (products(a, b), products(b, a));
    assert forall|i: int| 0 <= i < a.len() implies #[trigger] f(i) == g(i) by {
        lemma_times_comm(a[i], b[i]);
    }
    lemma_sum_ext(a.len() as int, f, g);
}

/// The run of parts `i..` continues the sum of the first `i` shares.
proof fn lemma_parts_sum_from<T: Real>(
    parts: Seq<spec_fn(Seq<T>) -> Outcome<T>>,
    shares: Seq<Seq<T>>,
    y: Seq<T>,
    i: int,
)
    requires
        exact_ring::<T>(),
        parts.len() == shares.len(),
        0 <= i <= parts.len(),
        forall|i: int, z: Seq<T>|
            0 <= i < parts.len() && z.len() == y.len() ==> #[trigger] parts[i](z) == Outcome::done(
                added(z, shares[i]),
            ),
    ensures
        run_parts(
            parts,
            i,
            Seq::new(y.len(), |k: int| y[k].plus(sum(i, column(shares, k)))),
        ) == Outcome::done(
            Seq::new(
                y.len(),
                |k: int| y[k].plus(sum(parts.len() as int, column(shares, k))),
            ),
        ),
    decreases parts.len() - i,
{
    if i < parts.len() {
        let z = Seq::new(y.len(), |k: int| y[k].plus(sum(i, column(shares, k))));
        let next = Seq::new(y.len(), |k: int| y[k].plus(sum(i + 1, column(shares, k))));
        assert(parts[i](z) == Outcome::done(added(z, shares[i])));
        assert forall|k: int| 0 <= k < y.len() implies #[trigger] added(z, shares[i])[k]
            == next[k] by {
            lemma_plus_assoc(y[k], sum(i, column(shares, k)), shares[i][k]);
        }
        assert(added(z, shares[i]) =~= next);
        lemma_parts_sum_from(parts, shares, y, i + 1);
    }
}

/// Text of the refusal of an application without names.
pub open spec fn unnamed_text(
    title: Seq<char>,
    request: OperatorTransposeRequest,
    add: bool,
) -> Seq<char> {
    title + match (request, add) {
        (
            OperatorTransposeRequest::Forward,
            false,
        ) => ": at least one sub-operator requires field-named buffers; use apply_field_buffers"@,
        (
            OperatorTransposeRequest::Forward,
            true,
        ) => ": at least one sub-operator requires field-named buffers; use apply_add_field_buffers"@,
        (
            OperatorTransposeRequest::Adjoint,
            false,
        ) => ": at least one sub-operator requires field-named buffers; use apply_field_buffers_with_transpose(Adjoint)"@,
        (
            OperatorTransposeRequest::Adjoint,
            true,
        ) => ": at least one sub-operator requires field-named buffers; use apply_add_field_buffers_with_transpose(Adjoint)"@,
    }
}

fn unnamed_error(title: &str, request: OperatorTransposeRequest, add: bool) -> (e: ReedError)
    ensures
        e@ == (ErrorKind::Operator, unnamed_text(title@, request, add)),
{
    let tail = match (request, add) {
        (
            OperatorTransposeRequest::Forward,
            false,
        ) => ": at least one sub-operator requires field-named buffers; use apply_field_buffers",
        (
            OperatorTransposeRequest::Forward,
            true,
        ) => ": at least one sub-operator requires field-named buffers; use apply_add_field_buffers",
        (
            OperatorTransposeRequest::Adjoint,
            false,
        ) => ": at least one sub-operator requires field-named buffers; use apply_field_buffers_with_transpose(Adjoint)",
        (
            OperatorTransposeRequest::Adjoint,
            true,
        ) => ": at least one sub-operator requires field-named buffers; use apply_add_field_buffers_with_transpose(Adjoint)",
    };
    ReedError::Operator(Message::new(title).text(tail).done())
}

/// `false` for the two assembly paths that no sum has.
pub open spec fn summable(kind: OperatorAssembleKind) -> bool {
    kind != OperatorAssembleKind::FdmElementInverse && kind
        != OperatorAssembleKind::LinearCsrNumeric
}

/// The sum of operators that it owns.
#[verifier::reject_recursive_types(T)]
pub struct CompositeOperator<T: Real> {
    ops: Vec<Box<dyn OperatorTrait<T>>>,
}

impl<T: Real> CompositeOperator<T> {
    /// The parts.
    pub closed spec fn parts(&self) -> Seq<Box<dyn OperatorTrait<T>>> {
        self.ops@
    }

    /// What the parts do to a vector, each adding its share.
    pub open spec fn steps(
        &self,
        request: OperatorTransposeRequest,
        x: Seq<T>,
    ) -> Seq<spec_fn(Seq<T>) -> Outcome<T>> {
        let p = self.parts();
        Seq::new(p.len(), |i: int| |y: Seq<T>| p[i].outcome(request, x, Sink::Accumulate(y)))
    }

    /// What the parts do to named vectors, each adding its share.
    pub open spec fn named_steps(
        &self,
        request: OperatorTransposeRequest,
        inputs: Seq<BufferView<T>>,
    ) -> Seq<spec_fn(Seq<BufferView<T>>) -> NamedOutcome<T>> {
        let p = self.parts();
        Seq::new(
            p.len(),
            |i: int| |y: Seq<BufferView<T>>| p[i].named_outcome(request, inputs, NamedSink::Accumulate(y)),
        )
    }

    /// What the parts do when they add their diagonals.
    pub open spec fn diagonal_steps(&self) -> Seq<spec_fn(Seq<T>) -> Outcome<T>> {
        let p = self.parts();
        Seq::new(p.len(), |i: int| |y: Seq<T>| p[i].diagonal_outcome(Sink::Accumulate(y)))
    }

    /// What the parts do when they write their diagonals into a vector in host memory.
    pub open spec fn fresh_diagonals(&self) -> Seq<spec_fn(Seq<T>) -> Outcome<T>> {
        let p = self.parts();
        Seq::new(
            p.len(),
            |i: int| |y: Seq<T>| p[i].diagonal_outcome(Sink::Overwrite(host_target(y))),
        )
    }

    /// The lengths that the parts know.
    pub open spec fn hints(&self) -> Seq<Option<usize>> {
        let p = self.parts();
        Seq::new(p.len(), |i: int| p[i].len_hint())
    }

    /// The first failure of a part to be ready, from part `i` on.
    pub open spec fn unready(&self, i: int) -> Option<(ErrorKind, Seq<char>)>
        decreases self.parts().len() - i,
    {
        if i >= self.parts().len() {
            None
        } else if self.parts()[i].readiness() is Some {
            self.parts()[i].readiness()
        } else {
            self.unready(i + 1)
        }
    }

    /// Sums operators on the same vectors.
    pub fn new(ops: Vec<Box<dyn OperatorTrait<T>>>) -> (r: ReedResult<Self>)
        requires
            forall|i: int| 0 <= i < ops@.len() ==> (#[trigger] ops@[i]).wf(),
        ensures
            ({
                let hints = Seq::new(ops@.len(), |i: int| ops@[i].len_hint());
                if ops@.len() == 0 {
                    refused(
                        r,
                        ErrorKind::Operator,
                        "CompositeOperator requires at least one sub-operator"@,
                    )
                } else {
                    match merged_hints(hints, 0, None) {
                        Err((e, n)) => refused(r, ErrorKind::Operator, hint_message(e, n)),
                        Ok(_) => r matches Ok(c) && c.wf() && c.parts() == ops@,
                    }
                }
            }),
    {
        if ops.len() == 0 {
            return Err(operator_error("CompositeOperator requires at least one sub-operator"));
        }
        let ghost hints = Seq::new(ops@.len(), |i: int| ops@[i].len_hint());
        let mut expected: Option<usize> = None;
        for i in 0..ops.len()
            invariant
                ops@.len() > 0,
                hints == Seq::new(ops@.len(), |i: int| ops@[i].len_hint()),
                forall|k: int| 0 <= k < ops@.len() ==> (#[trigger] ops@[k]).wf(),
                merged_hints(hints, 0, None) == merged_hints(hints, i as int, expected),
        {
            assert(ops@[i as int].wf());
            match merge_hint(expected, ops[i].global_vector_len_hint()) {
                Ok(h) => {
                    expected = h;
                },
                Err((e, n)) => {
                    return Err(
                        ReedError::Operator(
                            Message::new(
                                "composite sub-operators disagree on global vector length: ",
                            ).num(e).text(" vs ").num(n).done(),
                        ),
                    );
                },
            }
        }
        Ok(CompositeOperator { ops })
    }

    /// Number of parts.
    pub fn len(&self) -> (n: usize)
        ensures
            n == self.parts().len(),
    {
        self.ops.len()
    }

    /// Whether there is no part.
    pub fn is_empty(&self) -> (b: bool)
        ensures
            b == (self.parts().len() == 0),
    {
        self.ops.len() == 0
    }

    fn run(
        &self,
        request: OperatorTransposeRequest,
        x: &Box<dyn VectorTrait<T>>,
        y: &mut Box<dyn VectorTrait<T>>,
    ) -> (r: ReedResult<()>)
        requires
            self.wf(),
            forall|i: int|
                0 <= i < self.parts().len() ==> (#[trigger] self.parts()[i]).admits(
                    request,
                    true,
                    x.values().len(),
                    old(y).values().len(),
                ),
        ensures
            final(y).values().len() == old(y).values().len(),
            final(y).values() == run_parts(self.steps(request, x.values()), 0, old(y).values()).values,
            run_parts(self.steps(request, x.values()), 0, old(y).values()).reported(r),
    {
        let ghost steps = self.steps(request, x.values());
        let ghost start = y.values();
        for i in 0..self.ops.len()
            invariant
                self.wf(),
                steps == self.steps(request, x.values()),
                forall|k: int|
                    0 <= k < self.parts().len() ==> (#[trigger] self.parts()[k]).admits(
                        request,
                        true,
                        x.values().len(),
                        start.len(),
                    ),
                start == old(y).values(),
                y.values().len() == start.len(),
                run_parts(steps, 0, start) == run_parts(steps, i as int, y.values()),
        {
            let ghost before = y.values();
            assert(self.parts()[i as int].wf());
            assert(self.parts()[i as int].admits(request, true, x.values().len(), start.len()));
            assert(steps[i as int](before) == self.parts()[i as int].outcome(
                request,
                x.values(),
                Sink::Accumulate(before),
            ));
            let r = match request {
                OperatorTransposeRequest::Forward => self.ops[i].apply_add(x, y),
                OperatorTransposeRequest::Adjoint => self.ops[i].apply_add_with_transpose(
                    request,
                    x,
                    y,
                ),
            };
            if let Err(e) = r {
                return Err(e);
            }
        }
        Ok(())
    }

    fn run_on_names(
        &self,
        request: OperatorTransposeRequest,
        inputs: &Vec<FieldBuffer<T>>,
        outputs: &mut Vec<FieldBuffer<T>>,
    ) -> (r: ReedResult<()>)
        requires
            self.wf(),
            self.named_run_admitted(
                request,
                buffer_views(inputs@),
                0,
                buffer_views(old(outputs)@),
            ),
        ensures
            buffer_views(final(outputs)@) == run_named(
                self.named_steps(request, buffer_views(inputs@)),
                0,
                buffer_views(old(outputs)@),
            ).outputs,
            run_named(
                self.named_steps(request, buffer_views(inputs@)),
                0,
                buffer_views(old(outputs)@),
            ).reported(r),
    {
        let ghost ins = buffer_views(inputs@);
        let ghost steps = self.named_steps(request, ins);
        let ghost start = buffer_views(outputs@);
        for i in 0..self.ops.len()
            invariant
                self.wf(),
                ins == buffer_views(inputs@),
                steps == self.named_steps(request, ins),
                start == buffer_views(old(outputs)@),
                self.named_run_admitted(request, ins, i as int, buffer_views(outputs@)),
                run_named(steps, 0, start) == run_named(steps, i as int, buffer_views(outputs@)),
        {
            let ghost before = buffer_views(outputs@);
            assert(self.parts()[i as int].wf());
            assert(steps[i as int](before) == self.parts()[i as int].named_outcome(
                request,
                ins,
                NamedSink::Accumulate(before),
            ));
            let r = match request {
                OperatorTransposeRequest::Forward => self.ops[i].apply_add_field_buffers(
                    inputs,
                    outputs,
                ),
                OperatorTransposeRequest::Adjoint => self.ops[i].apply_add_field_buffers_with_transpose(
                    request,
                    inputs,
                    outputs,
                ),
            };
            if let Err(e) = r {
                return Err(e);
            }
        }
        Ok(())
    }

    /// Each part, from part `i` on, is defined on the named vectors that reach it.
    pub open spec fn named_run_admitted(
        &self,
        request: OperatorTransposeRequest,
        inputs: Seq<BufferView<T>>,
        i: int,
        outputs: Seq<BufferView<T>>,
    ) -> bool
        decreases self.parts().len() - i,
    {
        i < self.parts().len() ==> {
            let o = self.parts()[i].named_outcome(
                request,
                inputs,
                NamedSink::Accumulate(outputs),
            );
            &&& self.parts()[i].admits_named(request, inputs, NamedSink::Accumulate(outputs))
            &&& o.error is None ==> self.named_run_admitted(request, inputs, i + 1, o.outputs)
        }
    }
}

impl<T: Real> OperatorTrait<T> for CompositeOperator<T> {
    open spec fn wf(&self) -> bool {
        forall|i: int| 0 <= i < self.parts().len() ==> (#[trigger] self.parts()[i]).wf()
    }

    open spec fn admits(
        &self,
        request: OperatorTransposeRequest,
        add: bool,
        xlen: nat,
        ylen: nat,
    ) -> bool {
        self.needs_named() || forall|i: int|
            0 <= i < self.parts().len() ==> (#[trigger] self.parts()[i]).admits(
                request,
                true,
                xlen,
                ylen,
            )
    }

    open spec fn outcome(
        &self,
        request: OperatorTransposeRequest,
        x: Seq<T>,
        y: Sink<T>,
    ) -> Outcome<T> {
        let steps = self.steps(request, x);
        if self.needs_named() {
            Outcome::failed(
                ErrorKind::Operator,
                unnamed_text("CompositeOperator"@, request, y.adds()),
                y.values(),
            )
        } else {
            match y {
                Sink::Overwrite(v) => from_zero(v, |z: Seq<T>| run_parts(steps, 0, z)),
                Sink::Accumulate(z) => run_parts(steps, 0, z),
            }
        }
    }

    open spec fn admits_named(
        &self,
        request: OperatorTransposeRequest,
        inputs: Seq<BufferView<T>>,
        outputs: NamedSink<T>,
    ) -> bool {
        match outputs {
            NamedSink::Overwrite(b) => cleared(b).error is None ==> self.named_run_admitted(
                request,
                inputs,
                0,
                cleared(b).outputs,
            ),
            NamedSink::Accumulate(b) => self.named_run_admitted(request, inputs, 0, b),
        }
    }

    open spec fn named_outcome(
        &self,
        request: OperatorTransposeRequest,
        inputs: Seq<BufferView<T>>,
        outputs: NamedSink<T>,
    ) -> NamedOutcome<T> {
        let steps = self.named_steps(request, inputs);
        match outputs {
            NamedSink::Overwrite(b) => if cleared(b).error is Some {
                cleared(b)
            } else {
                run_named(steps, 0, cleared(b).outputs)
            },
            NamedSink::Accumulate(b) => run_named(steps, 0, b),
        }
    }

    open spec fn admits_diagonal(&self, add: bool, len: nat) -> bool {
        forall|i: int|
            0 <= i < self.parts().len() ==> (#[trigger] self.parts()[i]).admits_diagonal(add, len)
    }

    open spec fn diagonal_outcome(&self, y: Sink<T>) -> Outcome<T> {
        let fresh = self.fresh_diagonals();
        match y {
            Sink::Overwrite(v) => from_zero(v, |z: Seq<T>| run_diagonals(fresh, 0, z)),
            Sink::Accumulate(z) => run_parts(self.diagonal_steps(), 0, z),
        }
    }

    open spec fn len_hint(&self) -> Option<usize> {
        common_hint(self.hints())
    }

    open spec fn needs_named(&self) -> bool {
        exists|i: int| 0 <= i < self.parts().len() && (#[trigger] self.parts()[i]).needs_named()
    }

    open spec fn readiness(&self) -> Option<(ErrorKind, Seq<char>)> {
        self.unready(0)
    }

    open spec fn supports(&self, kind: OperatorAssembleKind) -> bool {
        summable(kind) && forall|i: int|
            0 <= i < self.parts().len() ==> (#[trigger] self.parts()[i]).supports(kind)
    }

    fn apply(
        &self,
        x: &Box<dyn VectorTrait<T>>,
        y: &mut Box<dyn VectorTrait<T>>,
    ) -> (r: ReedResult<()>) {
        self.apply_with_transpose(OperatorTransposeRequest::Forward, x, y)
    }

    fn apply_add(
        &self,
        x: &Box<dyn VectorTrait<T>>,
        y: &mut Box<dyn VectorTrait<T>>,
    ) -> (r: ReedResult<()>) {
        self.apply_add_with_transpose(OperatorTransposeRequest::Forward, x, y)
    }

    fn apply_with_transpose(
        &self,
        request: OperatorTransposeRequest,
        x: &Box<dyn VectorTrait<T>>,
        y: &mut Box<dyn VectorTrait<T>>,
    ) -> (r: ReedResult<()>) {
        if self.requires_field_named_buffers() {
            return Err(unnamed_error("CompositeOperator", request, false));
        }
        if let Err(e) = y.set_value(T::zero()) {
            return Err(e);
        }
        self.run(request, x, y)
    }

    fn apply_add_with_transpose(
        &self,
        request: OperatorTransposeRequest,
        x: &Box<dyn VectorTrait<T>>,
        y: &mut Box<dyn VectorTrait<T>>,
    ) -> (r: ReedResult<()>) {
        if self.requires_field_named_buffers() {
            return Err(unnamed_error("CompositeOperator", request, true));
        }
        self.run(request, x, y)
    }

    fn apply_field_buffers(
        &self,
        inputs: &Vec<FieldBuffer<T>>,
        outputs: &mut Vec<FieldBuffer<T>>,
    ) -> (r: ReedResult<()>) {
        self.apply_field_buffers_with_transpose(OperatorTransposeRequest::Forward, inputs, outputs)
    }

    fn apply_add_field_buffers(
        &self,
        inputs: &Vec<FieldBuffer<T>>,
        outputs: &mut Vec<FieldBuffer<T>>,
    ) -> (r: ReedResult<()>) {
        self.run_on_names(OperatorTransposeRequest::Forward, inputs, outputs)
    }

    fn apply_field_buffers_with_transpose(
        &self,
        request: OperatorTransposeRequest,
        inputs: &Vec<FieldBuffer<T>>,
        outputs: &mut Vec<FieldBuffer<T>>,
    ) -> (r: ReedResult<()>) {
        if let Err(e) = clear_buffers(outputs) {
            return Err(e);
        }
        self.run_on_names(request, inputs, outputs)
    }

    fn apply_add_field_buffers_with_transpose(
        &self,
        request: OperatorTransposeRequest,
        inputs: &Vec<FieldBuffer<T>>,
        outputs: &mut Vec<FieldBuffer<T>>,
    ) -> (r: ReedResult<()>) {
        self.run_on_names(request, inputs, outputs)
    }

    fn linear_assemble_diagonal(&self, assembled: &mut Box<dyn VectorTrait<T>>) -> (r: ReedResult<
        (),
    >) {
        let n: usize = assembled.len();
        if let Err(e) = assembled.set_value(T::zero()) {
            return Err(e);
        }
        let ghost steps = self.fresh_diagonals();
        let ghost start = assembled.values();
        for i in 0..self.ops.len()
            invariant
                self.wf(),
                self.admits_diagonal(false, n as nat),
                steps == self.fresh_diagonals(),
                n == assembled.values().len(),
                n == old(assembled).values().len(),
                start == old(assembled).filled(T::zero_val()).values,
                old(assembled).filled(T::zero_val()).error is None,
                run_diagonals(steps, 0, start) == run_diagonals(steps, i as int, assembled.values()),
        {
            let made = CpuVector::<T>::new(n);
            let ghost zero = zero_values::<T>(n as nat);
            let ghost host = made;
            let mut tmp: Box<dyn VectorTrait<T>> = Box::new(made);
            proof {
                lemma_host_target(host);
                assert(same_vector(&*tmp, &host));
                lemma_same_target(&*tmp, &host);
                assert(host.values() =~= zero);
                assert(self.parts()[i as int].wf());
                assert(self.parts()[i as int].admits_diagonal(false, n as nat));
                assert(steps[i as int](zero) == self.parts()[i as int].diagonal_outcome(
                    Sink::Overwrite(host_target(zero)),
                ));
            }
            if let Err(e) = self.ops[i].linear_assemble_diagonal(&mut tmp) {
                return Err(e);
            }
            add_to(assembled.as_mut_slice(), tmp.as_slice());
        }
        Ok(())
    }

    fn linear_assemble_add_diagonal(
        &self,
        assembled: &mut Box<dyn VectorTrait<T>>,
    ) -> (r: ReedResult<()>) {
        let ghost steps = self.diagonal_steps();
        let ghost start = assembled.values();
        for i in 0..self.ops.len()
            invariant
                self.wf(),
                self.admits_diagonal(true, start.len()),
                steps == self.diagonal_steps(),
                start == old(assembled).values(),
                assembled.values().len() == start.len(),
                run_parts(steps, 0, start) == run_parts(steps, i as int, assembled.values()),
        {
            assert(self.parts()[i as int].wf());
            assert(self.parts()[i as int].admits_diagonal(true, start.len()));
            assert(steps[i as int](assembled.values())
                == self.parts()[i as int].diagonal_outcome(Sink::Accumulate(assembled.values())));
            if let Err(e) = self.ops[i].linear_assemble_add_diagonal(assembled) {
                return Err(e);
            }
        }
        Ok(())
    }

    fn global_vector_len_hint(&self) -> (n: Option<usize>) {
        let ghost hints = self.hints();
        let mut expected: Option<usize> = None;
        for i in 0..self.ops.len()
            invariant
                self.wf(),
                hints == self.hints(),
                merged_hints(hints, 0, None) == merged_hints(hints, i as int, expected),
        {
            assert(self.parts()[i as int].wf());
            assert(hints[i as int] == self.parts()[i as int].len_hint());
            match merge_hint(expected, self.ops[i].global_vector_len_hint()) {
                Ok(h) => {
                    expected = h;
                },
                Err(_) => {
                    return None;
                },
            }
        }
        expected
    }

    fn requires_field_named_buffers(&self) -> (b: bool) {
        for i in 0..self.ops.len()
            invariant
                self.wf(),
                forall|k: int| 0 <= k < i ==> !(#[trigger] self.parts()[k]).needs_named(),
        {
            assert(self.parts()[i as int].wf());
            if self.ops[i].requires_field_named_buffers() {
                assert(self.parts()[i as int].needs_named());
                return true;
            }
        }
        false
    }

    fn check_ready(&self) -> (r: ReedResult<()>) {
        for i in 0..self.ops.len()
            invariant
                self.wf(),
                self.unready(0) == self.unready(i as int),
        {
            assert(self.parts()[i as int].wf());
            if let Err(e) = self.ops[i].check_ready() {
                return Err(e);
            }
        }
        Ok(())
    }

    fn operator_supports_assemble(&self, kind: OperatorAssembleKind) -> (b: bool) {
        match kind {
            OperatorAssembleKind::FdmElementInverse
            | OperatorAssembleKind::LinearCsrNumeric => false,
            _ => {
                for i in 0..self.ops.len()
                    invariant
                        self.wf(),
                        summable(kind),
                        forall|k: int|
                            0 <= k < i ==> (#[trigger] self.parts()[k]).supports(kind),
                {
                    assert(self.parts()[i as int].wf());
                    if !self.ops[i].operator_supports_assemble(kind) {
                        assert(!self.parts()[i as int].supports(kind));
                        return false;
                    }
                }
                true
            },
        }
    }

    fn linear_assemble_symbolic(&self) -> (r: ReedResult<()>)
        ensures
            refused(
                r,
                ErrorKind::Operator,
                "CompositeOperator: linear_assemble_symbolic is not supported (call on each sub-operator)"@,
            ),
    {
        Err(
            operator_error(
                "CompositeOperator: linear_assemble_symbolic is not supported (call on each sub-operator)",
            ),
        )
    }

    fn linear_assemble(&self) -> (r: ReedResult<()>)
        ensures
            refused(
                r,
                ErrorKind::Operator,
                "CompositeOperator: linear_assemble is not supported (call on each sub-operator)"@,
            ),
    {
        Err(
            operator_error(
                "CompositeOperator: linear_assemble is not supported (call on each sub-operator)",
            ),
        )
    }

    fn linear_assemble_add(&self) -> (r: ReedResult<()>)
        ensures
            refused(
                r,
                ErrorKind::Operator,
                "CompositeOperator: linear_assemble_add is not supported (call on each sub-operator)"@,
            ),
    {
        Err(
            operator_error(
                "CompositeOperator: linear_assemble_add is not supported (call on each sub-operator)",
            ),
        )
    }

    fn linear_assemble_csr_matrix(&self, _pattern: &CsrPattern) -> (r: ReedResult<CsrMatrix<T>>)
        ensures
            refused(
                r,
                ErrorKind::Operator,
                "CompositeOperator: linear_assemble_csr_matrix is not supported (call on each sub-operator)"@,
            ),
    {
        Err(
            operator_error(
                "CompositeOperator: linear_assemble_csr_matrix is not supported (call on each sub-operator)",
            ),
        )
    }

    fn linear_assemble_csr_matrix_add(&self, matrix: &mut CsrMatrix<T>) -> (r: ReedResult<()>)
        ensures
            *final(matrix) == *old(matrix),
            refused(
                r,
                ErrorKind::Operator,
                "CompositeOperator: linear_assemble_csr_matrix_add is not supported (call on each sub-operator)"@,
            ),
    {
        let _ = matrix;
        Err(
            operator_error(
                "CompositeOperator: linear_assemble_csr_matrix_add is not supported (call on each sub-operator)",
            ),
        )
    }

    fn linear_assemble_ceed_matrix(&self, matrix: &mut CeedMatrix<T>) -> (r: ReedResult<()>)
        ensures
            *final(matrix) == *old(matrix),
            refused(
                r,
                ErrorKind::Operator,
                "CompositeOperator: linear_assemble_ceed_matrix is not supported (call on each sub-operator)"@,
            ),
    {
        let _ = matrix;
        Err(
            operator_error(
                "CompositeOperator: linear_assemble_ceed_matrix is not supported (call on each sub-operator)",
            ),
        )
    }

    fn linear_assemble_add_ceed_matrix(&self, matrix: &mut CeedMatrix<T>) -> (r: ReedResult<()>)
        ensures
            *final(matrix) == *old(matrix),
            refused(
                r,
                ErrorKind::Operator,
                "CompositeOperator: linear_assemble_add_ceed_matrix is not supported (call on each sub-operator)"@,
            ),
    {
        let _ = matrix;
        Err(
            operator_error(
                "CompositeOperator: linear_assemble_add_ceed_matrix is not supported (call on each sub-operator)",
            ),
        )
    }
}

impl<T: Real> ElementInverse<T> for CompositeOperator<T> {
    fn operator_create_fdm_element_inverse(&self) -> (r: ReedResult<Box<dyn OperatorTrait<T>>>)
        ensures
            refused(
                r,
                ErrorKind::Operator,
                "CompositeOperator: operator_create_fdm_element_inverse is not supported (use a single-element operator)"@,
            ),
    {
        Err(
            operator_error(
                "CompositeOperator: operator_create_fdm_element_inverse is not supported (use a single-element operator)",
            ),
        )
    }

    fn operator_create_fdm_element_inverse_jacobi(&self) -> (r: ReedResult<Box<dyn OperatorTrait<T>>>)
        ensures
            refused(
                r,
                ErrorKind::Operator,
                "CompositeOperator: operator_create_fdm_element_inverse_jacobi is not supported (use a single-element operator)"@,
            ),
    {
        Err(
            operator_error(
                "CompositeOperator: operator_create_fdm_element_inverse_jacobi is not supported (use a single-element operator)",
            ),
        )
    }
}

/// The sum of borrowed operators.
#[verifier::reject_recursive_types(T)]
pub struct CompositeOperatorBorrowed<'a, T: Real> {
    ops: Vec<&'a dyn OperatorTrait<T>>,
}

impl<'a, T: Real> CompositeOperatorBorrowed<'a, T> {
    /// The parts.
    pub closed spec fn parts(&self) -> Seq<&'a dyn OperatorTrait<T>> {
        self.ops@
    }

    /// What the parts do to a vector, each adding its share.
    pub open spec fn steps(
        &self,
        request: OperatorTransposeRequest,
        x: Seq<T>,
    ) -> Seq<spec_fn(Seq<T>) -> Outcome<T>> {
        let p = self.parts();
        Seq::new(p.len(), |i: int| |y: Seq<T>| p[i].outcome(request, x, Sink::Accumulate(y)))
    }

    /// What the parts do to named vectors, each adding its share.
    pub open spec fn named_steps(
        &self,
        request: OperatorTransposeRequest,
        inputs: Seq<BufferView<T>>,
    ) -> Seq<spec_fn(Seq<BufferView<T>>) -> NamedOutcome<T>> {
        let p = self.parts();
        Seq::new(
            p.len(),
            |i: int| |y: Seq<BufferView<T>>| p[i].named_outcome(request, inputs, NamedSink::Accumulate(y)),
        )
    }

    /// What the parts do when they add their diagonals.
    pub open spec fn diagonal_steps(&self) -> Seq<spec_fn(Seq<T>) -> Outcome<T>> {
        let p = self.parts();
        Seq::new(p.len(), |i: int| |y: Seq<T>| p[i].diagonal_outcome(Sink::Accumulate(y)))
    }

    /// What the parts do when they write their diagonals into a vector in host memory.
    pub open spec fn fresh_diagonals(&self) -> Seq<spec_fn(Seq<T>) -> Outcome<T>> {
        let p = self.parts();
        Seq::new(
            p.len(),
            |i: int| |y: Seq<T>| p[i].diagonal_outcome(Sink::Overwrite(host_target(y))),
        )
    }

    /// The lengths that the parts know.
    pub open spec fn hints(&self) -> Seq<Option<usize>> {
        let p = self.parts();
        Seq::new(p.len(), |i: int| p[i].len_hint())
    }

    /// The first failure of a part to be ready, from part `i` on.
    pub open spec fn unready(&self, i: int) -> Option<(ErrorKind, Seq<char>)>
        decreases self.parts().len() - i,
    {
        if i >= self.parts().len() {
            None
        } else if self.parts()[i].readiness() is Some {
            self.parts()[i].readiness()
        } else {
            self.unready(i + 1)
        }
    }

    /// Sums operators on the same vectors.
    pub fn new(ops: Vec<&'a dyn OperatorTrait<T>>) -> (r: ReedResult<Self>)
        requires
            forall|i: int| 0 <= i < ops@.len() ==> (#[trigger] ops@[i]).wf(),
        ensures
            ({
                let hints = Seq::new(ops@.len(), |i: int| ops@[i].len_hint());
                if ops@.len() == 0 {
                    refused(
                        r,
                        ErrorKind::Operator,
                        "CompositeOperatorBorrowed requires at least one sub-operator"@,
                    )
                } else {
                    match merged_hints(hints, 0, None) {
                        Err((e, n)) => refused(r, ErrorKind::Operator, hint_message(e, n)),
                        Ok(_) => r matches Ok(c) && c.wf() && c.parts() == ops@,
                    }
                }
            }),
    {
        if ops.len() == 0 {
            return Err(operator_error("CompositeOperatorBorrowed requires at least one sub-operator"));
        }
        let ghost hints = Seq::new(ops@.len(), |i: int| ops@[i].len_hint());
        let mut expected: Option<usize> = None;
        for i in 0..ops.len()
            invariant
                ops@.len() > 0,
                hints == Seq::new(ops@.len(), |i: int| ops@[i].len_hint()),
                forall|k: int| 0 <= k < ops@.len() ==> (#[trigger] ops@[k]).wf(),
                merged_hints(hints, 0, None) == merged_hints(hints, i as int, expected),
        {
            assert(ops@[i as int].wf());
            match merge_hint(expected, ops[i].global_vector_len_hint()) {
                Ok(h) => {
                    expected = h;
                },
                Err((e, n)) => {
                    return Err(
                        ReedError::Operator(
                            Message::new(
                                "composite sub-operators disagree on global vector length: ",
                            ).num(e).text(" vs ").num(n).done(),
                        ),
                    );
                },
            }
        }
        Ok(CompositeOperatorBorrowed { ops })
    }

    /// Number of parts.
    pub fn len(&self) -> (n: usize)
        ensures
            n == self.parts().len(),
    {
        self.ops.len()
    }

    /// Whether there is no part.
    pub fn is_empty(&self) -> (b: bool)
        ensures
            b == (self.parts().len() == 0),
    {
        self.ops.len() == 0
    }

    fn run(
        &self,
        request: OperatorTransposeRequest,
        x: &Box<dyn VectorTrait<T>>,
        y: &mut Box<dyn VectorTrait<T>>,
    ) -> (r: ReedResult<()>)
        requires
            self.wf(),
            forall|i: int|
                0 <= i < self.parts().len() ==> (#[trigger] self.parts()[i]).admits(
                    request,
                    true,
                    x.values().len(),
                    old(y).values().len(),
                ),
        ensures
            final(y).values().len() == old(y).values().len(),
            final(y).values() == run_parts(self.steps(request, x.values()), 0, old(y).values()).values,
            run_parts(self.steps(request, x.values()), 0, old(y).values()).reported(r),
    {
        let ghost steps = self.steps(request, x.values());
        let ghost start = y.values();
        for i in 0..self.ops.len()
            invariant
                self.wf(),
                steps == self.steps(request, x.values()),
                forall|k: int|
                    0 <= k < self.parts().len() ==> (#[trigger] self.parts()[k]).admits(
                        request,
                        true,
                        x.values().len(),
                        start.len(),
                    ),
                start == old(y).values(),
                y.values().len() == start.len(),
                run_parts(steps, 0, start) == run_parts(steps, i as int, y.values()),
        {
            let ghost before = y.values();
            assert(self.parts()[i as int].wf());
            assert(self.parts()[i as int].admits(request, true, x.values().len(), start.len()));
            assert(steps[i as int](before) == self.parts()[i as int].outcome(
                request,
                x.values(),
                Sink::Accumulate(before),
            ));
            let r = match request {
                OperatorTransposeRequest::Forward => self.ops[i].apply_add(x, y),
                OperatorTransposeRequest::Adjoint => self.ops[i].apply_add_with_transpose(
                    request,
                    x,
                    y,
                ),
            };
            if let Err(e) = r {
                return Err(e);
            }
        }
        Ok(())
    }

    fn run_on_names(
        &self,
        request: OperatorTransposeRequest,
        inputs: &Vec<FieldBuffer<T>>,
        outputs: &mut Vec<FieldBuffer<T>>,
    ) -> (r: ReedResult<()>)
        requires
            self.wf(),
            self.named_run_admitted(
                request,
                buffer_views(inputs@),
                0,
                buffer_views(old(outputs)@),
            ),
        ensures
            buffer_views(final(outputs)@) == run_named(
                self.named_steps(request, buffer_views(inputs@)),
                0,
                buffer_views(old(outputs)@),
            ).outputs,
            run_named(
                self.named_steps(request, buffer_views(inputs@)),
                0,
                buffer_views(old(outputs)@),
            ).reported(r),
    {
        let ghost ins = buffer_views(inputs@);
        let ghost steps = self.named_steps(request, ins);
        let ghost start = buffer_views(outputs@);
        for i in 0..self.ops.len()
            invariant
                self.wf(),
                ins == buffer_views(inputs@),
                steps == self.named_steps(request, ins),
                start == buffer_views(old(outputs)@),
                self.named_run_admitted(request, ins, i as int, buffer_views(outputs@)),
                run_named(steps, 0, start) == run_named(steps, i as int, buffer_views(outputs@)),
        {
            let ghost before = buffer_views(outputs@);
            assert(self.parts()[i as int].wf());
            assert(steps[i as int](before) == self.parts()[i as int].named_outcome(
                request,
                ins,
                NamedSink::Accumulate(before),
            ));
            let r = match request {
                OperatorTransposeRequest::Forward => self.ops[i].apply_add_field_buffers(
                    inputs,
                    outputs,
                ),
                OperatorTransposeRequest::Adjoint => self.ops[i].apply_add_field_buffers_with_transpose(
                    request,
                    inputs,
                    outputs,
                ),
            };
            if let Err(e) = r {
                return Err(e);
            }
        }
        Ok(())
    }

    /// Each part, from part `i` on, is defined on the named vectors that reach it.
    pub open spec fn named_run_admitted(
        &self,
        request: OperatorTransposeRequest,
        inputs: Seq<BufferView<T>>,
        i: int,
        outputs: Seq<BufferView<T>>,
    ) -> bool
        decreases self.parts().len() - i,
    {
        i < self.parts().len() ==> {
            let o = self.parts()[i].named_outcome(
                request,
                inputs,
                NamedSink::Accumulate(outputs),
            );
            &&& self.parts()[i].admits_named(request, inputs, NamedSink::Accumulate(outputs))
            &&& o.error is None ==> self.named_run_admitted(request, inputs, i + 1, o.outputs)
        }
    }
}

impl<'a, T: Real> OperatorTrait<T> for CompositeOperatorBorrowed<'a, T> {
    open spec fn wf(&self) -> bool {
        forall|i: int| 0 <= i < self.parts().len() ==> (#[trigger] self.parts()[i]).wf()
    }

    open spec fn admits(
        &self,
        request: OperatorTransposeRequest,
        add: bool,
        xlen: nat,
        ylen: nat,
    ) -> bool {
        self.needs_named() || forall|i: int|
            0 <= i < self.parts().len() ==> (#[trigger] self.parts()[i]).admits(
                request,
                true,
                xlen,
                ylen,
            )
    }

    open spec fn outcome(
        &self,
        request: OperatorTransposeRequest,
        x: Seq<T>,
        y: Sink<T>,
    ) -> Outcome<T> {
        let steps = self.steps(request, x);
        if self.needs_named() {
            Outcome::failed(
                ErrorKind::Operator,
                unnamed_text("CompositeOperatorBorrowed"@, request, y.adds()),
                y.values(),
            )
        } else {
            match y {
                Sink::Overwrite(v) => from_zero(v, |z: Seq<T>| run_parts(steps, 0, z)),
                Sink::Accumulate(z) => run_parts(steps, 0, z),
            }
        }
    }

    open spec fn admits_named(
        &self,
        request: OperatorTransposeRequest,
        inputs: Seq<BufferView<T>>,
        outputs: NamedSink<T>,
    ) -> bool {
        match outputs {
            NamedSink::Overwrite(b) => cleared(b).error is None ==> self.named_run_admitted(
                request,
                inputs,
                0,
                cleared(b).outputs,
            ),
            NamedSink::Accumulate(b) => self.named_run_admitted(request, inputs, 0, b),
        }
    }

    open spec fn named_outcome(
        &self,
        request: OperatorTransposeRequest,
        inputs: Seq<BufferView<T>>,
        outputs: NamedSink<T>,
    ) -> NamedOutcome<T> {
        let steps = self.named_steps(request, inputs);
        match outputs {
            NamedSink::Overwrite(b) => if cleared(b).error is Some {
                cleared(b)
            } else {
                run_named(steps, 0, cleared(b).outputs)
            },
            NamedSink::Accumulate(b) => run_named(steps, 0, b),
        }
    }

    open spec fn admits_diagonal(&self, add: bool, len: nat) -> bool {
        forall|i: int|
            0 <= i < self.parts().len() ==> (#[trigger] self.parts()[i]).admits_diagonal(add, len)
    }

    open spec fn diagonal_outcome(&self, y: Sink<T>) -> Outcome<T> {
        let fresh = self.fresh_diagonals();
        match y {
            Sink::Overwrite(v) => from_zero(v, |z: Seq<T>| run_diagonals(fresh, 0, z)),
            Sink::Accumulate(z) => run_parts(self.diagonal_steps(), 0, z),
        }
    }

    open spec fn len_hint(&self) -> Option<usize> {
        common_hint(self.hints())
    }

    open spec fn needs_named(&self) -> bool {
        exists|i: int| 0 <= i < self.parts().len() && (#[trigger] self.parts()[i]).needs_named()
    }

    open spec fn readiness(&self) -> Option<(ErrorKind, Seq<char>)> {
        self.unready(0)
    }

    open spec fn supports(&self, kind: OperatorAssembleKind) -> bool {
        summable(kind) && forall|i: int|
            0 <= i < self.parts().len() ==> (#[trigger] self.parts()[i]).supports(kind)
    }

    fn apply(
        &self,
        x: &Box<dyn VectorTrait<T>>,
        y: &mut Box<dyn VectorTrait<T>>,
    ) -> (r: ReedResult<()>) {
        self.apply_with_transpose(OperatorTransposeRequest::Forward, x, y)
    }

    fn apply_add(
        &self,
        x: &Box<dyn VectorTrait<T>>,
        y: &mut Box<dyn VectorTrait<T>>,
    ) -> (r: ReedResult<()>) {
        self.apply_add_with_transpose(OperatorTransposeRequest::Forward, x, y)
    }

    fn apply_with_transpose(
        &self,
        request: OperatorTransposeRequest,
        x: &Box<dyn VectorTrait<T>>,
        y: &mut Box<dyn VectorTrait<T>>,
    ) -> (r: ReedResult<()>) {
        if self.requires_field_named_buffers() {
            return Err(unnamed_error("CompositeOperatorBorrowed", request, false));
        }
        if let Err(e) = y.set_value(T::zero()) {
            return Err(e);
        }
        self.run(request, x, y)
    }

    fn apply_add_with_transpose(
        &self,
        request: OperatorTransposeRequest,
        x: &Box<dyn VectorTrait<T>>,
        y: &mut Box<dyn VectorTrait<T>>,
    ) -> (r: ReedResult<()>) {
        if self.requires_field_named_buffers() {
            return Err(unnamed_error("CompositeOperatorBorrowed", request, true));
        }
        self.run(request, x, y)
    }

    fn apply_field_buffers(
        &self,
        inputs: &Vec<FieldBuffer<T>>,
        outputs: &mut Vec<FieldBuffer<T>>,
    ) -> (r: ReedResult<()>) {
        self.apply_field_buffers_with_transpose(OperatorTransposeRequest::Forward, inputs, outputs)
    }

    fn apply_add_field_buffers(
        &self,
        inputs: &Vec<FieldBuffer<T>>,
        outputs: &mut Vec<FieldBuffer<T>>,
    ) -> (r: ReedResult<()>) {
        self.run_on_names(OperatorTransposeRequest::Forward, inputs, outputs)
    }

    fn apply_field_buffers_with_transpose(
        &self,
        request: OperatorTransposeRequest,
        inputs: &Vec<FieldBuffer<T>>,
        outputs: &mut Vec<FieldBuffer<T>>,
    ) -> (r: ReedResult<()>) {
        if let Err(e) = clear_buffers(outputs) {
            return Err(e);
        }
        self.run_on_names(request, inputs, outputs)
    }

    fn apply_add_field_buffers_with_transpose(
        &self,
        request: OperatorTransposeRequest,
        inputs: &Vec<FieldBuffer<T>>,
        outputs: &mut Vec<FieldBuffer<T>>,
    ) -> (r: ReedResult<()>) {
        self.run_on_names(request, inputs, outputs)
    }

    fn linear_assemble_diagonal(&self, assembled: &mut Box<dyn VectorTrait<T>>) -> (r: ReedResult<
        (),
    >) {
        let n: usize = assembled.len();
        if let Err(e) = assembled.set_value(T::zero()) {
            return Err(e);
        }
        let ghost steps = self.fresh_diagonals();
        let ghost start = assembled.values();
        for i in 0..self.ops.len()
            invariant
                self.wf(),
                self.admits_diagonal(false, n as nat),
                steps == self.fresh_diagonals(),
                n == assembled.values().len(),
                n == old(assembled).values().len(),
                start == old(assembled).filled(T::zero_val()).values,
                old(assembled).filled(T::zero_val()).error is None,
                run_diagonals(steps, 0, start) == run_diagonals(steps, i as int, assembled.values()),
        {
            let made = CpuVector::<T>::new(n);
            let ghost zero = zero_values::<T>(n as nat);
            let ghost host = made;
            let mut tmp: Box<dyn VectorTrait<T>> = Box::new(made);
            proof {
                lemma_host_target(host);
                assert(same_vector(&*tmp, &host));
                lemma_same_target(&*tmp, &host);
                assert(host.values() =~= zero);
                assert(self.parts()[i as int].wf());
                assert(self.parts()[i as int].admits_diagonal(false, n as nat));
                assert(steps[i as int](zero) == self.parts()[i as int].diagonal_outcome(
                    Sink::Overwrite(host_target(zero)),
                ));
            }
            if let Err(e) = self.ops[i].linear_assemble_diagonal(&mut tmp) {
                return Err(e);
            }
            add_to(assembled.as_mut_slice(), tmp.as_slice());
        }
        Ok(())
    }

    fn linear_assemble_add_diagonal(
        &self,
        assembled: &mut Box<dyn VectorTrait<T>>,
    ) -> (r: ReedResult<()>) {
        let ghost steps = self.diagonal_steps();
        let ghost start = assembled.values();
        for i in 0..self.ops.len()
            invariant
                self.wf(),
                self.admits_diagonal(true, start.len()),
                steps == self.diagonal_steps(),
                start == old(assembled).values(),
                assembled.values().len() == start.len(),
                run_parts(steps, 0, start) == run_parts(steps, i as int, assembled.values()),
        {
            assert(self.parts()[i as int].wf());
            assert(self.parts()[i as int].admits_diagonal(true, start.len()));
            assert(steps[i as int](assembled.values())
                == self.parts()[i as int].diagonal_outcome(Sink::Accumulate(assembled.values())));
            if let Err(e) = self.ops[i].linear_assemble_add_diagonal(assembled) {
                return Err(e);
            }
        }
        Ok(())
    }

    fn global_vector_len_hint(&self) -> (n: Option<usize>) {
        let ghost hints = self.hints();
        let mut expected: Option<usize> = None;
        for i in 0..self.ops.len()
            invariant
                self.wf(),
                hints == self.hints(),
                merged_hints(hints, 0, None) == merged_hints(hints, i as int, expected),
        {
            assert(self.parts()[i as int].wf());
            assert(hints[i as int] == self.parts()[i as int].len_hint());
            match merge_hint(expected, self.ops[i].global_vector_len_hint()) {
                Ok(h) => {
                    expected = h;
                },
                Err(_) => {
                    return None;
                },
            }
        }
        expected
    }

    fn requires_field_named_buffers(&self) -> (b: bool) {
        for i in 0..self.ops.len()
            invariant
                self.wf(),
                forall|k: int| 0 <= k < i ==> !(#[trigger] self.parts()[k]).needs_named(),
        {
            assert(self.parts()[i as int].wf());
            if self.ops[i].requires_field_named_buffers() {
                assert(self.parts()[i as int].needs_named());
                return true;
            }
        }
        false
    }

    fn check_ready(&self) -> (r: ReedResult<()>) {
        for i in 0..self.ops.len()
            invariant
                self.wf(),
                self.unready(0) == self.unready(i as int),
        {
            assert(self.parts()[i as int].wf());
            if let Err(e) = self.ops[i].check_ready() {
                return Err(e);
            }
        }
        Ok(())
    }

    fn operator_supports_assemble(&self, kind: OperatorAssembleKind) -> (b: bool) {
        match kind {
            OperatorAssembleKind::FdmElementInverse
            | OperatorAssembleKind::LinearCsrNumeric => false,
            _ => {
                for i in 0..self.ops.len()
                    invariant
                        self.wf(),
                        summable(kind),
                        forall|k: int|
                            0 <= k < i ==> (#[trigger] self.parts()[k]).supports(kind),
                {
                    assert(self.parts()[i as int].wf());
                    if !self.ops[i].operator_supports_assemble(kind) {
                        assert(!self.parts()[i as int].supports(kind));
                        return false;
                    }
                }
                true
            },
        }
    }

    fn linear_assemble_symbolic(&self) -> (r: ReedResult<()>)
        ensures
            refused(
                r,
                ErrorKind::Operator,
                "CompositeOperatorBorrowed: linear_assemble_symbolic is not supported (call on each sub-operator)"@,
            ),
    {
        Err(
            operator_error(
                "CompositeOperatorBorrowed: linear_assemble_symbolic is not supported (call on each sub-operator)",
            ),
        )
    }

    fn linear_assemble(&self) -> (r: ReedResult<()>)
        ensures
            refused(
                r,
                ErrorKind::Operator,
                "CompositeOperatorBorrowed: linear_assemble is not supported (call on each sub-operator)"@,
            ),
    {
        Err(
            operator_error(
                "CompositeOperatorBorrowed: linear_assemble is not supported (call on each sub-operator)",
            ),
        )
    }

    fn linear_assemble_add(&self) -> (r: ReedResult<()>)
        ensures
            refused(
                r,
                ErrorKind::Operator,
                "CompositeOperatorBorrowed: linear_assemble_add is not supported (call on each sub-operator)"@,
            ),
    {
        Err(
            operator_error(
                "CompositeOperatorBorrowed: linear_assemble_add is not supported (call on each sub-operator)",
            ),
        )
    }

    fn linear_assemble_csr_matrix(&self, _pattern: &CsrPattern) -> (r: ReedResult<CsrMatrix<T>>)
        ensures
            refused(
                r,
                ErrorKind::Operator,
                "CompositeOperatorBorrowed: linear_assemble_csr_matrix is not supported (call on each sub-operator)"@,
            ),
    {
        Err(
            operator_error(
                "CompositeOperatorBorrowed: linear_assemble_csr_matrix is not supported (call on each sub-operator)",
            ),
        )
    }

    fn linear_assemble_csr_matrix_add(&self, matrix: &mut CsrMatrix<T>) -> (r: ReedResult<()>)
        ensures
            *final(matrix) == *old(matrix),
            refused(
                r,
                ErrorKind::Operator,
                "CompositeOperatorBorrowed: linear_assemble_csr_matrix_add is not supported (call on each sub-operator)"@,
            ),
    {
        let _ = matrix;
        Err(
            operator_error(
                "CompositeOperatorBorrowed: linear_assemble_csr_matrix_add is not supported (call on each sub-operator)",
            ),
        )
    }

    fn linear_assemble_ceed_matrix(&self, matrix: &mut CeedMatrix<T>) -> (r: ReedResult<()>)
        ensures
            *final(matrix) == *old(matrix),
            refused(
                r,
                ErrorKind::Operator,
                "CompositeOperatorBorrowed: linear_assemble_ceed_matrix is not supported (call on each sub-operator)"@,
            ),
    {
        let _ = matrix;
        Err(
            operator_error(
                "CompositeOperatorBorrowed: linear_assemble_ceed_matrix is not supported (call on each sub-operator)",
            ),
        )
    }

    fn linear_assemble_add_ceed_matrix(&self, matrix: &mut CeedMatrix<T>) -> (r: ReedResult<()>)
        ensures
            *final(matrix) == *old(matrix),
            refused(
                r,
                ErrorKind::Operator,
                "CompositeOperatorBorrowed: linear_assemble_add_ceed_matrix is not supported (call on each sub-operator)"@,
            ),
    {
        let _ = matrix;
        Err(
            operator_error(
                "CompositeOperatorBorrowed: linear_assemble_add_ceed_matrix is not supported (call on each sub-operator)",
            ),
        )
    }
}

impl<'a, T: Real> ElementInverse<T> for CompositeOperatorBorrowed<'a, T> {
    fn operator_create_fdm_element_inverse(&self) -> (r: ReedResult<Box<dyn OperatorTrait<T>>>)
        ensures
            refused(
                r,
                ErrorKind::Operator,
                "CompositeOperatorBorrowed: operator_create_fdm_element_inverse is not supported (use a single-element operator)"@,
            ),
    {
        Err(
            operator_error(
                "CompositeOperatorBorrowed: operator_create_fdm_element_inverse is not supported (use a single-element operator)",
            ),
        )
    }

    fn operator_create_fdm_element_inverse_jacobi(&self) -> (r: ReedResult<Box<dyn OperatorTrait<T>>>)
        ensures
            refused(
                r,
                ErrorKind::Operator,
                "CompositeOperatorBorrowed: operator_create_fdm_element_inverse_jacobi is not supported (use a single-element operator)"@,
            ),
    {
        Err(
            operator_error(
                "CompositeOperatorBorrowed: operator_create_fdm_element_inverse_jacobi is not supported (use a single-element operator)",
            ),
        )
    }
}

/// Diagonals that are written into zeros and then added leave what adding them leaves.
proof fn lemma_diagonals_are_parts<T: Real>(
    fresh: Seq<spec_fn(Seq<T>) -> Outcome<T>>,
    steps: Seq<spec_fn(Seq<T>) -> Outcome<T>>,
    shares: Seq<Seq<T>>,
    i: int,
    y: Seq<T>,
)
    requires
        fresh.len() == shares.len(),
        steps.len() == shares.len(),
        0 <= i <= shares.len(),
        forall|k: int|
            0 <= k < fresh.len() ==> #[trigger] fresh[k](zero_values(y.len())) == Outcome::done(
                shares[k],
            ),
        forall|k: int, z: Seq<T>|
            0 <= k < steps.len() && z.len() == y.len() ==> #[trigger] steps[k](z) == Outcome::done(
                added(z, shares[k]),
            ),
    ensures
        run_diagonals(fresh, i, y) == run_parts(steps, i, y),
    decreases shares.len() - i,
{
    if i < shares.len() {
        assert(fresh[i](zero_values(y.len())) == Outcome::done(shares[i]));
        assert(steps[i](y) == Outcome::done(added(y, shares[i])));
        lemma_diagonals_are_parts(fresh, steps, shares, i + 1, added(y, shares[i]));
    }
}

// ── laws of the sums ────────────────────────────────────────────────────────

/// What overwriting leaves does not depend on what the output held, only on what setting it to
/// zero leaves.
pub proof fn law_old_output_is_forgotten<T: Real>(
    c: CompositeOperator<T>,
    request: OperatorTransposeRequest,
    x: Seq<T>,
    v: WriteTarget<T>,
    w: WriteTarget<T>,
)
    requires
        !c.needs_named(),
        (v.filled)(T::zero_val()) == (w.filled)(T::zero_val()),
    ensures
        c.outcome(request, x, Sink::Overwrite(v)) == c.outcome(request, x, Sink::Overwrite(w)),
{
}

/// Where every part adds a fixed share, overwriting leaves the sum of the shares and adding adds
/// it, in exact arithmetic.
pub proof fn law_composite_sums<T: Real>(
    c: CompositeOperator<T>,
    request: OperatorTransposeRequest,
    x: Seq<T>,
    y: Seq<T>,
    v: WriteTarget<T>,
    shares: Seq<Seq<T>>,
)
    requires
        exact_ring::<T>(),
        !c.needs_named(),
        shares.len() == c.parts().len(),
        forall|i: int, z: Seq<T>|
            0 <= i < shares.len() && z.len() == y.len() ==> #[trigger] c.parts()[i].outcome(
                request,
                x,
                Sink::Accumulate(z),
            ) == Outcome::done(added(z, shares[i])),
        (v.filled)(T::zero_val()) == Outcome::done(zero_values::<T>(y.len())),
    ensures
        c.outcome(request, x, Sink::Overwrite(v)) == Outcome::done(total(shares, y.len())),
        c.outcome(request, x, Sink::Accumulate(y)) == Outcome::done(
            added(y, total(shares, y.len())),
        ),
{
    let steps = c.steps(request, x);
    let zero = zero_values::<T>(y.len());
    let sums = total(shares, y.len());
    assert forall|i: int, z: Seq<T>| 0 <= i < steps.len() && z.len() == y.len() implies #[trigger]
        steps[i](z) == Outcome::done(added(z, shares[i])) by {
        assert(steps[i](z) == c.parts()[i].outcome(request, x, Sink::Accumulate(z)));
    }
    law_parts_sum(steps, shares, zero);
    law_parts_sum(steps, shares, y);
    let from_zero = Seq::new(
        zero.len(),
        |k: int| zero[k].plus(sum(steps.len() as int, column(shares, k))),
    );
    assert forall|k: int| 0 <= k < y.len() implies #[trigger] from_zero[k] == sums[k] by {
        lemma_plus_zero(sums[k]);
        lemma_plus_comm(sums[k], zero[k]);
    }
    assert(from_zero =~= sums);
    assert(Seq::new(
        y.len(),
        |k: int| y[k].plus(sum(steps.len() as int, column(shares, k))),
    ) =~= added(y, sums));
}

/// What overwriting leaves does not depend on what the output held, only on what setting it to
/// zero leaves.
pub proof fn law_borrowed_old_output_is_forgotten<'a, T: Real>(
    c: CompositeOperatorBorrowed<'a, T>,
    request: OperatorTransposeRequest,
    x: Seq<T>,
    v: WriteTarget<T>,
    w: WriteTarget<T>,
)
    requires
        !c.needs_named(),
        (v.filled)(T::zero_val()) == (w.filled)(T::zero_val()),
    ensures
        c.outcome(request, x, Sink::Overwrite(v)) == c.outcome(request, x, Sink::Overwrite(w)),
{
}

/// Where every part adds a fixed share, overwriting leaves the sum of the shares and adding adds
/// it, in exact arithmetic.
pub proof fn law_borrowed_composite_sums<'a, T: Real>(
    c: CompositeOperatorBorrowed<'a, T>,
    request: OperatorTransposeRequest,
    x: Seq<T>,
    y: Seq<T>,
    v: WriteTarget<T>,
    shares: Seq<Seq<T>>,
)
    requires
        exact_ring::<T>(),
        !c.needs_named(),
        shares.len() == c.parts().len(),
        forall|i: int, z: Seq<T>|
            0 <= i < shares.len() && z.len() == y.len() ==> #[trigger] c.parts()[i].outcome(
                request,
                x,
                Sink::Accumulate(z),
            ) == Outcome::done(added(z, shares[i])),
        (v.filled)(T::zero_val()) == Outcome::done(zero_values::<T>(y.len())),
    ensures
        c.outcome(request, x, Sink::Overwrite(v)) == Outcome::done(total(shares, y.len())),
        c.outcome(request, x, Sink::Accumulate(y)) == Outcome::done(
            added(y, total(shares, y.len())),
        ),
{
    let steps = c.steps(request, x);
    let zero = zero_values::<T>(y.len());
    let sums = total(shares, y.len());
    assert forall|i: int, z: Seq<T>| 0 <= i < steps.len() && z.len() == y.len() implies #[trigger]
        steps[i](z) == Outcome::done(added(z, shares[i])) by {
        assert(steps[i](z) == c.parts()[i].outcome(request, x, Sink::Accumulate(z)));
    }
    law_parts_sum(steps, shares, zero);
    law_parts_sum(steps, shares, y);
    let from_zero = Seq::new(
        zero.len(),
        |k: int| zero[k].plus(sum(steps.len() as int, column(shares, k))),
    );
    assert forall|k: int| 0 <= k < y.len() implies #[trigger] from_zero[k] == sums[k] by {
        lemma_plus_zero(sums[k]);
        lemma_plus_comm(sums[k], zero[k]);
    }
    assert(from_zero =~= sums);
    assert(Seq::new(
        y.len(),
        |k: int| y[k].plus(sum(steps.len() as int, column(shares, k))),
    ) =~= added(y, sums));
}

/// Where every part has a fixed diagonal, overwriting leaves the sum of the diagonals and adding
/// adds it, in exact arithmetic.
pub proof fn law_composite_diagonals_sum<T: Real>(
    c: CompositeOperator<T>,
    y: Seq<T>,
    v: WriteTarget<T>,
    shares: Seq<Seq<T>>,
)
    requires
        exact_ring::<T>(),
        shares.len() == c.parts().len(),
        forall|i: int|
            0 <= i < shares.len() ==> (#[trigger] c.parts()[i]).diagonal_outcome(
                Sink::Overwrite(host_target(zero_values::<T>(y.len()))),
            ) == Outcome::done(shares[i]),
        forall|i: int, z: Seq<T>|
            0 <= i < shares.len() && z.len() == y.len()
                ==> #[trigger] c.parts()[i].diagonal_outcome(Sink::Accumulate(z))
                == Outcome::done(added(z, shares[i])),
        (v.filled)(T::zero_val()) == Outcome::done(zero_values::<T>(y.len())),
    ensures
        c.diagonal_outcome(Sink::Overwrite(v)) == Outcome::done(total(shares, y.len())),
        c.diagonal_outcome(Sink::Accumulate(y)) == Outcome::done(
            added(y, total(shares, y.len())),
        ),
{
    let (steps, fresh) = (c.diagonal_steps(), c.fresh_diagonals());
    let zero = zero_values::<T>(y.len());
    let sums = total(shares, y.len());
    assert forall|i: int, z: Seq<T>| 0 <= i < steps.len() && z.len() == y.len() implies #[trigger]
        steps[i](z) == Outcome::done(added(z, shares[i])) by {
        assert(steps[i](z) == c.parts()[i].diagonal_outcome(Sink::Accumulate(z)));
    }
    assert forall|i: int| 0 <= i < fresh.len() implies #[trigger] fresh[i](zero_values(zero.len()))
        == Outcome::done(shares[i]) by {
        assert(fresh[i](zero) == c.parts()[i].diagonal_outcome(Sink::Overwrite(host_target(zero))));
    }
    lemma_diagonals_are_parts(fresh, steps, shares, 0, zero);
    law_parts_sum(steps, shares, zero);
    law_parts_sum(steps, shares, y);
    let from_zero = Seq::new(
        zero.len(),
        |k: int| zero[k].plus(sum(steps.len() as int, column(shares, k))),
    );
    assert forall|k: int| 0 <= k < y.len() implies #[trigger] from_zero[k] == sums[k] by {
        lemma_plus_zero(sums[k]);
        lemma_plus_comm(sums[k], zero[k]);
    }
    assert(from_zero =~= sums);
    assert(Seq::new(
        y.len(),
        |k: int| y[k].plus(sum(steps.len() as int, column(shares, k))),
    ) =~= added(y, sums));
}

/// Where every part has a fixed diagonal, overwriting leaves the sum of the diagonals and adding
/// adds it, in exact arithmetic.
pub proof fn law_borrowed_composite_diagonals_sum<'a, T: Real>(
    c: CompositeOperatorBorrowed<'a, T>,
    y: Seq<T>,
    v: WriteTarget<T>,
    shares: Seq<Seq<T>>,
)
    requires
        exact_ring::<T>(),
        shares.len() == c.parts().len(),
        forall|i: int|
            0 <= i < shares.len() ==> (#[trigger] c.parts()[i]).diagonal_outcome(
                Sink::Overwrite(host_target(zero_values::<T>(y.len()))),
            ) == Outcome::done(shares[i]),
        forall|i: int, z: Seq<T>|
            0 <= i < shares.len() && z.len() == y.len()
                ==> #[trigger] c.parts()[i].diagonal_outcome(Sink::Accumulate(z))
                == Outcome::done(added(z, shares[i])),
        (v.filled)(T::zero_val()) == Outcome::done(zero_values::<T>(y.len())),
    ensures
        c.diagonal_outcome(Sink::Overwrite(v)) == Outcome::done(total(shares, y.len())),
        c.diagonal_outcome(Sink::Accumulate(y)) == Outcome::done(
            added(y, total(shares, y.len())),
        ),
{
    let (steps, fresh) = (c.diagonal_steps(), c.fresh_diagonals());
    let zero = zero_values::<T>(y.len());
    let sums = total(shares, y.len());
    assert forall|i: int, z: Seq<T>| 0 <= i < steps.len() && z.len() == y.len() implies #[trigger]
        steps[i](z) == Outcome::done(added(z, shares[i])) by {
        assert(steps[i](z) == c.parts()[i].diagonal_outcome(Sink::Accumulate(z)));
    }
    assert forall|i: int| 0 <= i < fresh.len() implies #[trigger] fresh[i](zero_values(zero.len()))
        == Outcome::done(shares[i]) by {
        assert(fresh[i](zero) == c.parts()[i].diagonal_outcome(Sink::Overwrite(host_target(zero))));
    }
    lemma_diagonals_are_parts(fresh, steps, shares, 0, zero);
    law_parts_sum(steps, shares, zero);
    law_parts_sum(steps, shares, y);
    let from_zero = Seq::new(
        zero.len(),
        |k: int| zero[k].plus(sum(steps.len() as int, column(shares, k))),
    );
    assert forall|k: int| 0 <= k < y.len() implies #[trigger] from_zero[k] == sums[k] by {
        lemma_plus_zero(sums[k]);
        lemma_plus_comm(sums[k], zero[k]);
    }
    assert(from_zero =~= sums);
    assert(Seq::new(
        y.len(),
        |k: int| y[k].plus(sum(steps.len() as int, column(shares, k))),
    ) =~= added(y, sums));
}

} // verus!
