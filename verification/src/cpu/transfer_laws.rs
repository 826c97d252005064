//! Where restrictions read and add, node by node.

use vstd::prelude::*;

#[allow(unused_imports)]
use crate::cpu::elem_restriction::{CpuElemRestriction, LayoutView, RestrictionView};
#[allow(unused_imports)]
use crate::cpu::elem_restriction_face::CpuFaceElemRestriction;
#[allow(unused_imports)]
use crate::cpu::gather::{
    first_fault, lemma_before_first_fault, lemma_first_fault_range, lemma_scatter_adds, shares,
};
#[allow(unused_imports)]
use crate::csr::{CsrPattern, OffsetMap};
use crate::elem_restriction::ElemRestrictionTrait;
#[allow(unused_imports)]
use crate::enums::TransposeMode;
#[allow(unused_imports)]
use crate::index::{lemma_flat, lemma_flat3, lemma_mul_le, lemma_split, lemma_split3};
use crate::scalar::Real;
#[allow(unused_imports)]
use crate::scalar::{exact_ring, lemma_plus_zero, lemma_sum_single};

verus! {

// ── elements ────────────────────────────────────────────────────────────────

/// Component `c` of node `l` of element `e` has a place in the global vector.
pub open spec fn placed(v: RestrictionView, e: int, c: int, l: int) -> bool {
    match v.layout {
        LayoutView::Offset { offsets, compstride } => {
            &&& 0 <= offsets[e * v.elemsize + l]
            &&& offsets[e * v.elemsize + l] + c * compstride < v.lsize
        },
        LayoutView::Strided { node, comp, elem } => 0 <= l * node + c * comp + e * elem < v.lsize,
    }
}

/// A restriction moves numbers between vectors of the right lengths exactly where every component
/// of every node has a place in the global vector.
pub proof fn law_transfer_is_accepted<T: Real>(r: CpuElemRestriction<T>)
    requires
        r.wf(),
    ensures
        ({
            let local = (r@.nelem * r@.elemsize * r@.ncomp) as nat;
            let global = r@.lsize as nat;
            let all = forall|e: int, c: int, l: int|
                0 <= e < r@.nelem && 0 <= c < r@.ncomp && 0 <= l < r@.elemsize ==> #[trigger] placed(
                    r@,
                    e,
                    c,
                    l,
                );
            &&& r.refusal(TransposeMode::NoTranspose, global, local) is None <==> all
            &&& r.refusal(TransposeMode::Transpose, local, global) is None <==> all
        }),
{
    let (ne, nc, es) = (r@.nelem as int, r@.ncomp as int, r@.elemsize as int);
    let n = r@.count();
    let f = r@.faults();
    assert(ne * es * nc == ne * nc * es) by (nonlinear_arith);
    lemma_mul_le(0, ne, 0, es);
    lemma_mul_le(0, ne * es, 0, nc);
    lemma_first_fault_range(f, 0, n);
    let k = first_fault(f, 0, n);
    if k < n {
        lemma_split3(k, ne, nc, es);
        let (e, c, l) = (k / es / nc, k / es % nc, k % es);
        assert(r@.fault(k) is Some);
        assert(0 <= c * r@.layout->compstride || !(r@.layout is Offset)) by {
            if r@.layout is Offset {
                lemma_mul_le(0, c, 0, r@.layout->compstride as int);
            }
        }
        assert(!placed(r@, e, c, l));
    } else {
        assert forall|e: int, c: int, l: int|
            0 <= e < ne && 0 <= c < nc && 0 <= l < es implies #[trigger] placed(r@, e, c, l) by {
            lemma_flat3(e, ne, c, nc, l, es);
            let at = (e * nc + c) * es + l;
            lemma_before_first_fault(f, 0, n, at);
            assert(f(at) is None);
            assert(r@.fault(at) is None);
        }
    }
}

// ── faces ───────────────────────────────────────────────────────────────────

/// Face-local position `(f * ncomp + c) * num_dof_per_face + n` belongs to component `c` of node
/// `n` of face `f`. Gathering reads it from the global index that `face_offsets` holds there.
pub proof fn law_face_gather_reads<T: Real>(
    r: CpuFaceElemRestriction<T>,
    u: Seq<T>,
    v: Seq<T>,
    f: int,
    c: int,
    n: int,
)
    requires
        r.wf(),
        r.refusal(TransposeMode::NoTranspose, u.len(), v.len()) is None,
        0 <= f < r@.num_faces,
        0 <= c < r@.ncomp,
        0 <= n < r@.num_dof_per_face,
    ensures
        ({
            let l = (f * r@.ncomp + c) * r@.num_dof_per_face + n;
            r.applied(TransposeMode::NoTranspose, u, v)[l] == u[r@.face_offsets[l] as int]
        }),
{
    let (nf, nc, nn) = (r@.num_faces as int, r@.ncomp as int, r@.num_dof_per_face as int);
    lemma_flat3(f, nf, c, nc, n, nn);
    assert(nf * nn * nc == nf * nc * nn) by (nonlinear_arith);
    lemma_first_fault_range(r@.source_faults(), 0, r@.count());
}

/// The transpose adds component `c` of node `n` of face `f` at the global index of the parent
/// element's node that the face node is, and changes nothing else: with zeros at the other
/// positions, one entry of the global vector grows by that number and the others stay.
pub proof fn law_face_scatter_adds<T: Real>(
    r: CpuFaceElemRestriction<T>,
    w: Seq<T>,
    v: Seq<T>,
    f: int,
    c: int,
    n: int,
    i: int,
)
    requires
        exact_ring::<T>(),
        r.wf(),
        r.refusal(TransposeMode::Transpose, w.len(), v.len()) is None,
        0 <= f < r@.num_faces,
        0 <= c < r@.ncomp,
        0 <= n < r@.num_dof_per_face,
        forall|l: int|
            0 <= l < w.len() && l != (f * r@.ncomp + c) * r@.num_dof_per_face + n
                ==> #[trigger] w[l] == T::zero_val(),
        0 <= i < v.len(),
    ensures
        ({
            let l = (f * r@.ncomp + c) * r@.num_dof_per_face + n;
            let (parent, node) = (
                r@.face_to_elem[f].0 as int,
                r@.face_to_elem_local[f * r@.num_dof_per_face + n] as int,
            );
            let at = r@.elem_offsets[(parent * r@.ncomp + c) * r@.num_dof_per_elem + node] as int;
            r.applied(TransposeMode::Transpose, w, v)[i] == if i == at {
                v[i].plus(w[l])
            } else {
                v[i]
            }
        }),
{
    let (nf, nc, nn) = (r@.num_faces as int, r@.ncomp as int, r@.num_dof_per_face as int);
    let ne = r@.num_dof_per_elem as int;
    let at = (f * nc + c) * nn + n;
    lemma_flat3(f, nf, c, nc, n, nn);
    assert(nf * nn * nc == nf * nc * nn) by (nonlinear_arith);
    let m = r@.count();
    lemma_first_fault_range(r@.sink_faults(), 0, m);
    assert forall|l: int| 0 <= l < m implies 0 <= #[trigger] (r@.sinks())(l) < v.len() by {
        lemma_before_first_fault(r@.sink_faults(), 0, m, l);
        assert((r@.sink_faults())(l) is None);
    }
    lemma_scatter_adds(r@.sinks(), m, w, v, i);
    let s = shares(r@.sinks(), w, i);
    lemma_sum_single(m, at, s);
    let p = r@.face_to_elem[f].0 as int;
    assert(p * nc * ne + c * ne == (p * nc + c) * ne) by (nonlinear_arith);
    lemma_plus_zero(v[i]);
}

// ── sparsity ────────────────────────────────────────────────────────────────

/// The sparsity pattern of a restriction by offsets has an entry for every two numbers that the
/// gathering of one element reads, and for no others.
pub proof fn law_pattern_couples_gathered<T: Real>(
    r: CpuElemRestriction<T>,
    p: CsrPattern,
    i: int,
    j: int,
)
    requires
        r.wf(),
        r@.layout is Offset,
        r@.ncomp > 0,
        r@.elemsize > 0,
        r.gives_pattern(Ok(p)),
    ensures
        p.has(i, j) <==> exists|k: int, l: int|
            0 <= k < r@.count() && 0 <= l < r@.count() && k / (r@.ncomp * r@.elemsize) == l / (
            r@.ncomp * r@.elemsize) && #[trigger] r@.target(k) == i && #[trigger] r@.target(l) == j,
{
    let (ne, nc, es) = (r@.nelem as int, r@.ncomp as int, r@.elemsize as int);
    let (offsets, stride) = (r@.layout->offsets, r@.layout->compstride);
    let map = OffsetMap {
        nelem: ne,
        elemsize: es,
        ncomp: nc,
        compstride: stride as int,
        offsets,
    };
    assert(p.has(i, j) <==> map.coupled(i, j));
    let n = nc * es;
    assert(ne * es * nc == ne * nc * es) by (nonlinear_arith);
    assert(ne * nc * es == ne * n) by (nonlinear_arith)
        requires
            n == nc * es,
    ;
    if map.coupled(i, j) {
        let e = choose|e: int|
            0 <= e < ne && #[trigger] map.touches(e, i) && map.touches(e, j);
        let (c, l) = choose|c: int, l: int|
            0 <= c < nc && 0 <= l < es && #[trigger] map.entry(e, c, l) == i;
        let (d, m) = choose|d: int, m: int|
            0 <= d < nc && 0 <= m < es && #[trigger] map.entry(e, d, m) == j;
        lemma_flat3(e, ne, c, nc, l, es);
        lemma_flat3(e, ne, d, nc, m, es);
        let (x, y) = ((e * nc + c) * es + l, (e * nc + d) * es + m);
        lemma_same_element(e, ne, c, nc, l, es);
        lemma_same_element(e, ne, d, nc, m, es);
        assert(r@.target(x) == i);
        assert(r@.target(y) == j);
    }
    if exists|k: int, l: int|
        0 <= k < r@.count() && 0 <= l < r@.count() && k / (r@.ncomp * r@.elemsize) == l / (r@.ncomp
            * r@.elemsize) && #[trigger] r@.target(k) == i && #[trigger] r@.target(l) == j {
        let (x, y) = choose|k: int, l: int|
            0 <= k < r@.count() && 0 <= l < r@.count() && k / (r@.ncomp * r@.elemsize) == l / (
            r@.ncomp * r@.elemsize) && #[trigger] r@.target(k) == i && #[trigger] r@.target(l) == j;
        lemma_split_element(x, ne, nc, es);
        lemma_split_element(y, ne, nc, es);
        let e = x / n;
        assert(map.entry(e, x / es % nc, x % es) == i);
        assert(map.entry(e, y / es % nc, y % es) == j);
        assert(map.touches(e, i) && map.touches(e, j));
    }
}

/// The element of a local position.
proof fn lemma_same_element(e: int, ne: int, c: int, nc: int, l: int, es: int)
    requires
        0 <= e < ne,
        0 <= c < nc,
        0 <= l < es,
    ensures
        ((e * nc + c) * es + l) / (nc * es) == e,
{
    lemma_flat(c, nc, l, es);
    lemma_flat(e, ne, c * es + l, nc * es);
    assert((e * nc + c) * es + l == e * (nc * es) + (c * es + l)) by (nonlinear_arith);
}

/// The parts of a local position.
proof fn lemma_split_element(x: int, ne: int, nc: int, es: int)
    requires
        0 <= ne,
        0 <= x < ne * (nc * es),
        0 < nc,
        0 < es,
    ensures
        x / (nc * es) == x / es / nc,
        0 <= x / es / nc < ne,
        0 <= x / es % nc < nc,
        0 <= x % es < es,
{
    assert(ne * (nc * es) == ne * nc * es) by (nonlinear_arith);
    lemma_mul_le(0, ne, 0, nc);
    lemma_split(x, ne * nc, es);
    lemma_split(x / es, ne, nc);
    let (e, c, l) = (x / es / nc, x / es % nc, x % es);
    lemma_same_element(e, ne, c, nc, l, es);
}

} // verus!
