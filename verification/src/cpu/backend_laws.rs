//! Where the restrictions that a backend makes read.

use vstd::prelude::*;

#[allow(unused_imports)]
use crate::cpu::backend::{holds_restriction, CpuBackend};
#[allow(unused_imports)]
use crate::cpu::elem_restriction::{
    law_gather_reads, CpuElemRestriction, LayoutView, RestrictionView,
};
use crate::elem_restriction::ElemRestrictionTrait;
#[allow(unused_imports)]
use crate::enums::TransposeMode;
use crate::error::ReedResult;
use crate::reed::{Backend, OffsetShape};
use crate::scalar::Scalar;
use crate::types::CeedInt;

verus! {

/// A restriction made from offsets reads component `c` of node `l` of element `e` at the node's
/// offset, moved by `c` component strides.
pub proof fn law_made_offsets_are_read<T: Scalar>(
    backend: CpuBackend,
    shape: OffsetShape,
    offsets: Seq<CeedInt>,
    made: ReedResult<Box<dyn ElemRestrictionTrait<T>>>,
    u: Seq<T>,
    v: Seq<T>,
    e: int,
    c: int,
    l: int,
)
    requires
        Backend::<T>::makes_restriction(&backend, shape, offsets, made),
        made is Ok,
        made->Ok_0.wf(),
        made->Ok_0.refusal(TransposeMode::NoTranspose, u.len(), v.len()) is None,
        0 <= e < shape.nelem,
        0 <= c < shape.ncomp,
        0 <= l < shape.elemsize,
    ensures
        made->Ok_0.elements() == shape.nelem,
        made->Ok_0.nodes_per_elem() == shape.elemsize,
        made->Ok_0.comps() == shape.ncomp,
        made->Ok_0.global_len() == shape.lsize,
        made->Ok_0.applied(TransposeMode::NoTranspose, u, v)[(e * shape.ncomp + c) * shape.elemsize
            + l] == u[offsets[e * shape.elemsize + l] + c * shape.compstride],
{
    let stored = choose|m: CpuElemRestriction<T>|
        m@ == (RestrictionView {
            nelem: shape.nelem,
            elemsize: shape.elemsize,
            ncomp: shape.ncomp,
            lsize: shape.lsize,
            layout: LayoutView::Offset { offsets, compstride: shape.compstride },
        }) && #[trigger] holds_restriction(made, m);
    assert(holds_restriction(made, stored));
    assert(made->Ok_0.refusal(TransposeMode::NoTranspose, u.len(), v.len()) == stored.refusal(
        TransposeMode::NoTranspose,
        u.len(),
        v.len(),
    ));
    assert(made->Ok_0.applied(TransposeMode::NoTranspose, u, v) == stored.applied(
        TransposeMode::NoTranspose,
        u,
        v,
    ));
    law_gather_reads(stored, u, v, e, c, l);
}

/// A restriction made from strides reads component `c` of node `l` of element `e` at `l` times the
/// first stride, plus `c` times the second, plus `e` times the third.
pub proof fn law_made_strides_are_read<T: Scalar>(
    backend: CpuBackend,
    nelem: usize,
    elemsize: usize,
    ncomp: usize,
    lsize: usize,
    strides: Seq<CeedInt>,
    made: ReedResult<Box<dyn ElemRestrictionTrait<T>>>,
    u: Seq<T>,
    v: Seq<T>,
    e: int,
    c: int,
    l: int,
)
    requires
        Backend::<T>::makes_strided(&backend, nelem, elemsize, ncomp, lsize, strides, made),
        made is Ok,
        made->Ok_0.wf(),
        made->Ok_0.refusal(TransposeMode::NoTranspose, u.len(), v.len()) is None,
        0 <= e < nelem,
        0 <= c < ncomp,
        0 <= l < elemsize,
    ensures
        made->Ok_0.elements() == nelem,
        made->Ok_0.nodes_per_elem() == elemsize,
        made->Ok_0.comps() == ncomp,
        made->Ok_0.global_len() == lsize,
        made->Ok_0.applied(TransposeMode::NoTranspose, u, v)[(e * ncomp + c) * elemsize + l] == u[l
            * strides[0] + c * strides[1] + e * strides[2]],
{
    let stored = choose|m: CpuElemRestriction<T>|
        m@ == (RestrictionView {
            nelem,
            elemsize,
            ncomp,
            lsize,
            layout: LayoutView::Strided {
                node: strides[0] as int,
                comp: strides[1] as int,
                elem: strides[2] as int,
            },
        }) && #[trigger] holds_restriction(made, m);
    assert(holds_restriction(made, stored));
    assert(made->Ok_0.refusal(TransposeMode::NoTranspose, u.len(), v.len()) == stored.refusal(
        TransposeMode::NoTranspose,
        u.len(),
        v.len(),
    ));
    assert(made->Ok_0.applied(TransposeMode::NoTranspose, u, v) == stored.applied(
        TransposeMode::NoTranspose,
        u,
        v,
    ));
    law_gather_reads(stored, u, v, e, c, l);
}

} // verus!
