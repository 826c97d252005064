//! Batches: one element map applied to consecutive element blocks of a vector.

use vstd::prelude::*;

#[allow(unused_imports)]
use crate::index::lemma_flat;
use crate::enums::EvalMode;
use crate::scalar::Real;

verus! {

/// Block `e` of length `n`.
pub open spec fn block<T>(u: Seq<T>, e: int, n: int) -> Seq<T> {
    u.subrange(e * n, e * n + n)
}

/// The images of the blocks of `u` under `f`, one after the other.
pub open spec fn batched<T>(
    f: spec_fn(Seq<T>) -> Seq<T>,
    num_elem: int,
    in_len: int,
    out_len: int,
    u: Seq<T>,
) -> Seq<T> {
    Seq::new(
        (num_elem * out_len) as nat,
        |k: int| f(block(u, k / out_len, in_len))[k % out_len],
    )
}

/// The elements stand one after the other and do not see each other: the numbers of element `e`
/// start at `e * out_len`, and they are the image of the `in_len` numbers from `e * in_len` on.
pub proof fn law_batch_is_elementwise<T>(
    f: spec_fn(Seq<T>) -> Seq<T>,
    num_elem: int,
    in_len: int,
    out_len: int,
    u: Seq<T>,
    e: int,
    j: int,
)
    requires
        0 <= in_len,
        u.len() == num_elem * in_len,
        0 <= e < num_elem,
        0 <= j < out_len,
    ensures
        batched(f, num_elem, in_len, out_len, u).len() == num_elem * out_len,
        batched(f, num_elem, in_len, out_len, u)[e * out_len + j] == f(
            Seq::new(in_len as nat, |i: int| u[e * in_len + i]),
        )[j],
{
    lemma_flat(e, num_elem, j, out_len);
    lemma_whole_block(e, num_elem, in_len);
    assert(block(u, e, in_len) =~= Seq::new(in_len as nat, |i: int| u[e * in_len + i]));
}

/// An element's block lies inside the vector.
pub proof fn lemma_whole_block(e: int, num_elem: int, n: int)
    by (nonlinear_arith)
    requires
        0 <= e < num_elem,
        0 <= n,
    ensures
        0 <= e * n,
        e * n + n <= num_elem * n,
{
}

/// A linear map on the data of one element, for each evaluation mode and direction.
pub trait ElementMap<T: Real> {
    /// The map is valid.
    spec fn valid(&self) -> bool;

    /// The mode is one the map has.
    spec fn has_mode(&self, eval_mode: EvalMode, transpose: bool) -> bool;

    /// Length of an element's input.
    spec fn in_len(&self, eval_mode: EvalMode, transpose: bool) -> int;

    /// Length of an element's output.
    spec fn out_len(&self, eval_mode: EvalMode, transpose: bool) -> int;

    /// Image of an element's input.
    spec fn image(&self, eval_mode: EvalMode, transpose: bool) -> spec_fn(Seq<T>) -> Seq<T>;

    /// Computes the image of an element's input.
    fn compute(&self, eval_mode: EvalMode, transpose: bool, u: &[T]) -> (r: Vec<T>)
        requires
            self.valid(),
            self.has_mode(eval_mode, transpose),
            u@.len() == self.in_len(eval_mode, transpose),
            self.out_len(eval_mode, transpose) <= usize::MAX,
        ensures
            r@ == (self.image(eval_mode, transpose))(u@),
            r@.len() == self.out_len(eval_mode, transpose),
    ;
}

/// Overwrites `v` with the batched image of `u`.
pub fn apply_batch<T: Real, K: ElementMap<T>>(
    map: &K,
    num_elem: usize,
    eval_mode: EvalMode,
    transpose: bool,
    in_len: usize,
    out_len: usize,
    u: &[T],
    v: &mut [T],
)
    requires
        map.valid(),
        map.has_mode(eval_mode, transpose),
        in_len == map.in_len(eval_mode, transpose),
        out_len == map.out_len(eval_mode, transpose),
        u@.len() == num_elem * in_len,
        old(v)@.len() == num_elem * out_len,
        u@.len() <= usize::MAX,
        old(v)@.len() <= usize::MAX,
    ensures
        final(v)@ == batched(
            map.image(eval_mode, transpose),
            num_elem as int,
            in_len as int,
            out_len as int,
            u@,
        ),
{
    let ghost f = map.image(eval_mode, transpose);
    let ghost goal = batched(f, num_elem as int, in_len as int, out_len as int, u@);
    assert(0 * in_len == 0 && 0 * out_len == 0);
    for e in 0..num_elem
        invariant
            map.valid(),
            map.has_mode(eval_mode, transpose),
            f == map.image(eval_mode, transpose),
            in_len == map.in_len(eval_mode, transpose),
            out_len == map.out_len(eval_mode, transpose),
            u@.len() == num_elem * in_len,
            v@.len() == num_elem * out_len,
            u@.len() <= usize::MAX,
            v@.len() <= usize::MAX,
            goal == batched(f, num_elem as int, in_len as int, out_len as int, u@),
            forall|k: int| 0 <= k < e * out_len ==> #[trigger] v@[k] == goal[k],
    {
        proof {
            lemma_block(e as int, num_elem as int, in_len as int);
            lemma_block(e as int, num_elem as int, out_len as int);
        }
        let start: usize = e * in_len;
        let out = map.compute(eval_mode, transpose, &u[start..start + in_len]);
        let base: usize = e * out_len;
        for j in 0..out_len
            invariant
                e < num_elem,
                base == e * out_len,
                base + out_len <= num_elem * out_len,
                out@.len() == out_len,
                v@.len() == num_elem * out_len,
                v@.len() <= usize::MAX,
                out@ == f(block(u@, e as int, in_len as int)),
                goal == batched(f, num_elem as int, in_len as int, out_len as int, u@),
                forall|k: int| 0 <= k < base + j ==> #[trigger] v@[k] == goal[k],
        {
            v[base + j] = out[j];
            proof {
                lemma_flat(e as int, num_elem as int, j as int, out_len as int);
            }
        }
    }
    assert(v@ =~= goal);
}

/// Blocks lie inside the vector, one after the other.
pub proof fn lemma_block(e: int, num_elem: int, n: int)
    requires
        0 <= e < num_elem,
        0 <= n,
    ensures
        0 <= e * n,
        e * n + n == (e + 1) * n,
        e * n + n <= num_elem * n,
{
    assert(e * n + n == (e + 1) * n) by (nonlinear_arith);
    assert(0 <= e * n) by (nonlinear_arith)
        requires
            0 <= e,
            0 <= n,
    ;
    assert((e + 1) * n <= num_elem * n) by (nonlinear_arith)
        requires
            e + 1 <= num_elem,
            0 <= n,
    ;
}

} // verus!
