//! Element restriction on the host.

use vstd::prelude::*;

use crate::cpu::gather::{gather, scatter, LocalMap};
#[allow(unused_imports)]
use crate::cpu::gather::{
    accumulated, first_fault, gathered, lemma_before_first_fault, lemma_first_fault,
    lemma_first_fault_range, lemma_scatter_accumulates, lemma_scatter_adds, lemma_scatter_adjoint,
    lemma_scatter_keeps, scattered, shares, stopping_fault,
};
use crate::csr::{csr_sparsity_from_offset_restriction, CsrPattern};
#[allow(unused_imports)]
use crate::csr::sparsity_outcome;
use crate::elem_restriction::{BoxedClone, ElemRestrictionTrait};
use crate::enums::TransposeMode;
use crate::error::{ErrorKind, ReedError, ReedResult};
#[allow(unused_imports)]
use crate::error::refused;
#[allow(unused_imports)]
use crate::index::{lemma_flat, lemma_flat3, lemma_split3};
use crate::scalar::Real;
#[allow(unused_imports)]
use crate::scalar::{exact_ring, inner, sum};
use crate::text::Message;
#[allow(unused_imports)]
use crate::text::{decimal, signed_decimal};

verus! {

enum RestrictionLayout {
    Offset { offsets: Vec<i32>, compstride: usize },
    Strided { strides: [i32; 3] },
}

/// How local positions map to global indices.
pub enum LayoutView {
    /// Node offsets per element, plus the component times `compstride`.
    Offset { offsets: Seq<i32>, compstride: usize },
    /// Strides per local node, per component and per element.
    Strided { node: int, comp: int, elem: int },
}

/// The mathematical content of a [`CpuElemRestriction`].
///
/// A local vector is numbered by element, then component, then local node.
pub struct RestrictionView {
    pub nelem: usize,
    pub elemsize: usize,
    pub ncomp: usize,
    pub lsize: usize,
    pub layout: LayoutView,
}

/// `i` is an `i32` value.
pub open spec fn fits_i32(i: int) -> bool {
    i32::MIN <= i <= i32::MAX
}

impl RestrictionView {
    /// Length of a local vector.
    pub open spec fn count(self) -> int {
        self.nelem * self.elemsize * self.ncomp
    }

    /// Element of local position `l`.
    pub open spec fn elem(self, l: int) -> int {
        l / (self.elemsize as int) / (self.ncomp as int)
    }

    /// Component of local position `l`.
    pub open spec fn comp(self, l: int) -> int {
        l / (self.elemsize as int) % (self.ncomp as int)
    }

    /// Local node of local position `l`.
    pub open spec fn node(self, l: int) -> int {
        l % (self.elemsize as int)
    }

    /// The node offset used at local position `l`.
    pub open spec fn base(self, l: int) -> int {
        match self.layout {
            LayoutView::Offset { offsets, .. } => offsets[self.elem(l) * self.elemsize + self.node(
                l,
            )] as int,
            LayoutView::Strided { .. } => 0,
        }
    }

    /// Global index of local position `l`.
    pub open spec fn target(self, l: int) -> int {
        match self.layout {
            LayoutView::Offset { offsets, compstride } => self.base(l) + self.comp(l) * compstride,
            LayoutView::Strided { node, comp, elem } => self.node(l) * node + self.comp(l) * comp
                + self.elem(l) * elem,
        }
    }

    /// What is wrong with local position `l`, if anything.
    pub open spec fn fault(self, l: int) -> Option<Seq<char>> {
        if self.layout is Offset && self.base(l) < 0 {
            Some(
                "negative offset "@ + signed_decimal(self.base(l)) + " at element "@ + decimal(
                    self.elem(l) as nat,
                ) + ", local "@ + decimal(self.node(l) as nat),
            )
        } else if self.layout is Strided && self.target(l) < 0 {
            Some(
                "negative strided index "@ + signed_decimal(self.target(l)) + " at element "@
                    + decimal(self.elem(l) as nat) + ", comp "@ + decimal(self.comp(l) as nat)
                    + ", local "@ + decimal(self.node(l) as nat),
            )
        } else if self.target(l) >= self.lsize {
            Some(
                "global index "@ + decimal(self.target(l) as nat) + " out of bounds for lsize "@
                    + decimal(self.lsize as nat),
            )
        } else {
            None
        }
    }

    /// The index arithmetic at local position `l` stays in machine range.
    pub open spec fn index_fits(self, l: int) -> bool {
        match self.layout {
            LayoutView::Offset { offsets, compstride } => self.comp(l) * compstride <= usize::MAX
                && self.base(l) + self.comp(l) * compstride <= usize::MAX,
            LayoutView::Strided { node, comp, elem } => {
                &&& self.elem(l) <= i32::MAX
                &&& self.comp(l) <= i32::MAX
                &&& self.node(l) <= i32::MAX
                &&& fits_i32(self.node(l) * node)
                &&& fits_i32(self.comp(l) * comp)
                &&& fits_i32(self.elem(l) * elem)
                &&& fits_i32(self.node(l) * node + self.comp(l) * comp)
                &&& fits_i32(self.target(l))
            },
        }
    }

    /// Sizes stay in machine range, and so does the index arithmetic up to the first fault.
    pub open spec fn in_range(self) -> bool {
        &&& self.nelem * self.elemsize <= usize::MAX
        &&& self.count() <= usize::MAX
        &&& forall|l: int|
            0 <= l < self.count() && l <= first_fault(self.faults(), 0, self.count())
                ==> #[trigger] self.index_fits(l)
    }

    /// The offset table has one entry per element node.
    pub open spec fn table_fits(self) -> bool {
        self.layout matches LayoutView::Offset { offsets, .. } ==> offsets.len() == self.nelem
            * self.elemsize
    }

    /// Global indices of all local positions.
    pub open spec fn targets(self) -> spec_fn(int) -> int {
        |l: int| self.target(l)
    }

    /// Faults of all local positions.
    pub open spec fn faults(self) -> spec_fn(int) -> Option<Seq<char>> {
        |l: int| self.fault(l)
    }
}

/// The error of a transfer between a global vector of length `global` and a local one of length
/// `local`, where a pass over the positions stops at `stop`.
pub open spec fn transfer_refusal(
    t_mode: TransposeMode,
    ulen: nat,
    vlen: nat,
    global: int,
    local: int,
    stop: Option<Seq<char>>,
) -> Option<(ErrorKind, Seq<char>)> {
    let kind = ErrorKind::ElemRestriction;
    match t_mode {
        TransposeMode::NoTranspose => if ulen != global {
            Some(
                (
                    kind,
                    "input length "@ + decimal(ulen) + " != global size "@ + decimal(global as nat),
                ),
            )
        } else if vlen != local {
            Some(
                (
                    kind,
                    "output length "@ + decimal(vlen) + " != local size "@ + decimal(local as nat),
                ),
            )
        } else {
            match stop {
                Some(m) => Some((kind, m)),
                None => None,
            }
        },
        TransposeMode::Transpose => if ulen != local {
            Some(
                (kind, "input length "@ + decimal(ulen) + " != local size "@ + decimal(local as nat)),
            )
        } else if vlen != global {
            Some(
                (
                    kind,
                    "output length "@ + decimal(vlen) + " != global size "@ + decimal(global as nat),
                ),
            )
        } else {
            match stop {
                Some(m) => Some((kind, m)),
                None => None,
            }
        },
    }
}

/// Builds the error of vectors of the wrong length.
pub(crate) fn length_error(what: &str, len: usize, size: &str, expected: usize) -> (e: ReedError)
    ensures
        e@ == (
            ErrorKind::ElemRestriction,
            what@ + decimal(len as nat) + size@ + decimal(expected as nat),
        ),
{
    ReedError::ElemRestriction(Message::new(what).num(len).text(size).num(expected).done())
}

/// Element restriction by node offsets or by strides.
pub struct CpuElemRestriction<T: Real> {
    nelem: usize,
    elemsize: usize,
    ncomp: usize,
    lsize: usize,
    layout: RestrictionLayout,
    marker: core::marker::PhantomData<T>,
}

impl<T: Real> View for CpuElemRestriction<T> {
    type V = RestrictionView;

    closed spec fn view(&self) -> RestrictionView {
        RestrictionView {
            nelem: self.nelem,
            elemsize: self.elemsize,
            ncomp: self.ncomp,
            lsize: self.lsize,
            layout: match self.layout {
                RestrictionLayout::Offset { offsets, compstride } => LayoutView::Offset {
                    offsets: offsets@,
                    compstride,
                },
                RestrictionLayout::Strided { strides } => LayoutView::Strided {
                    node: strides@[0] as int,
                    comp: strides@[1] as int,
                    elem: strides@[2] as int,
                },
            },
        }
    }
}

impl<T: Real> CpuElemRestriction<T> {
    /// Restriction by node offsets: component `c` of local node `l` of element `e` is the global
    /// index `offsets[e * elemsize + l] + c * compstride`.
    pub fn new_offset(
        nelem: usize,
        elemsize: usize,
        ncomp: usize,
        compstride: usize,
        lsize: usize,
        offsets: &[i32],
    ) -> (r: ReedResult<Self>)
        requires
            nelem * elemsize <= usize::MAX,
        ensures
            if offsets@.len() != nelem * elemsize {
                refused(
                    r,
                    ErrorKind::InvalidArgument,
                    "offsets length "@ + decimal(offsets@.len()) + " != nelem*elemsize "@ + decimal(
                        (nelem * elemsize) as nat,
                    ),
                )
            } else {
                r matches Ok(x) && x@ == (RestrictionView {
                    nelem,
                    elemsize,
                    ncomp,
                    lsize,
                    layout: LayoutView::Offset { offsets: offsets@, compstride },
                })
            },
    {
        if offsets.len() != nelem * elemsize {
            return Err(
                ReedError::InvalidArgument(
                    Message::new("offsets length ").num(offsets.len()).text(
                        " != nelem*elemsize ",
                    ).num(nelem * elemsize).done(),
                ),
            );
        }
        let mut table: Vec<i32> = Vec::new();
        for i in 0..offsets.len()
            invariant
                table@ == offsets@.take(i as int),
        {
            table.push(offsets[i]);
            assert(table@ =~= offsets@.take(i + 1));
        }
        assert(table@ =~= offsets@);
        Ok(
            CpuElemRestriction {
                nelem,
                elemsize,
                ncomp,
                lsize,
                layout: RestrictionLayout::Offset { offsets: table, compstride },
                marker: core::marker::PhantomData,
            },
        )
    }

    /// Restriction by strides: component `c` of local node `l` of element `e` is the global index
    /// `l * strides[0] + c * strides[1] + e * strides[2]`.
    pub fn new_strided(
        nelem: usize,
        elemsize: usize,
        ncomp: usize,
        lsize: usize,
        strides: [i32; 3],
    ) -> (r: ReedResult<Self>)
        ensures
            r matches Ok(x) && x@ == (RestrictionView {
                nelem,
                elemsize,
                ncomp,
                lsize,
                layout: LayoutView::Strided {
                    node: strides@[0] as int,
                    comp: strides@[1] as int,
                    elem: strides@[2] as int,
                },
            }),
    {
        Ok(
            CpuElemRestriction {
                nelem,
                elemsize,
                ncomp,
                lsize,
                layout: RestrictionLayout::Strided { strides },
                marker: core::marker::PhantomData,
            },
        )
    }

    fn bounded(&self, g: usize) -> (r: ReedResult<usize>)
        ensures
            if g >= self@.lsize {
                refused(
                    r,
                    ErrorKind::ElemRestriction,
                    "global index "@ + decimal(g as nat) + " out of bounds for lsize "@ + decimal(
                        self@.lsize as nat,
                    ),
                )
            } else {
                r == Ok::<usize, ReedError>(g)
            },
    {
        if g >= self.lsize {
            return Err(
                ReedError::ElemRestriction(
                    Message::new("global index ").num(g).text(" out of bounds for lsize ").num(
                        self.lsize,
                    ).done(),
                ),
            );
        }
        Ok(g)
    }
}

/// Element, component and node of a local position are in range.
pub proof fn lemma_position(view: RestrictionView, l: int)
    requires
        0 <= l < view.count(),
    ensures
        0 < view.nelem && 0 < view.ncomp && 0 < view.elemsize,
        0 <= view.elem(l) < view.nelem,
        0 <= view.comp(l) < view.ncomp,
        0 <= view.node(l) < view.elemsize,
        0 <= view.elem(l) * view.elemsize + view.node(l) < view.nelem * view.elemsize,
{
    let (ne, nc, es) = (view.nelem as int, view.ncomp as int, view.elemsize as int);
    assert(ne * es * nc == ne * nc * es) by (nonlinear_arith);
    lemma_split3(l, ne, nc, es);
    lemma_flat(view.elem(l), ne, view.node(l), es);
}

impl<T: Real> LocalMap for CpuElemRestriction<T> {
    open spec fn usable(&self) -> bool {
        self@.in_range() && self@.table_fits()
    }

    open spec fn count(&self) -> int {
        self@.count()
    }

    open spec fn global(&self) -> int {
        self@.lsize as int
    }

    open spec fn targets(&self) -> spec_fn(int) -> int {
        self@.targets()
    }

    open spec fn faults(&self) -> spec_fn(int) -> Option<Seq<char>> {
        self@.faults()
    }

    fn locate(&self, l: usize) -> (r: ReedResult<usize>) {
        proof {
            lemma_position(self@, l as int);
            lemma_first_fault(self@.faults(), l as int, self@.count());
            lemma_first_fault_range(self@.faults(), l as int, self@.count());
            assert(self@.index_fits(l as int));
        }
        let node: usize = l % self.elemsize;
        let row: usize = l / self.elemsize;
        let comp: usize = row % self.ncomp;
        let elem: usize = row / self.ncomp;
        match &self.layout {
            RestrictionLayout::Offset { offsets, compstride } => {
                let base: i32 = offsets[elem * self.elemsize + node];
                if base < 0 {
                    return Err(
                        ReedError::ElemRestriction(
                            Message::new("negative offset ").signed(base as i64).text(
                                " at element ",
                            ).num(elem).text(", local ").num(node).done(),
                        ),
                    );
                }
                self.bounded(base as usize + comp * *compstride)
            },
            RestrictionLayout::Strided { strides } => {
                let index: i32 = node as i32 * strides[0] + comp as i32 * strides[1] + elem as i32
                    * strides[2];
                if index < 0 {
                    return Err(
                        ReedError::ElemRestriction(
                            Message::new("negative strided index ").signed(index as i64).text(
                                " at element ",
                            ).num(elem).text(", comp ").num(comp).text(", local ").num(
                                node,
                            ).done(),
                        ),
                    );
                }
                self.bounded(index as usize)
            },
        }
    }
}

impl<T: Real> ElemRestrictionTrait<T> for CpuElemRestriction<T> {
    open spec fn wf(&self) -> bool {
        self@.in_range() && self@.table_fits()
    }

    open spec fn elements(&self) -> int {
        self@.nelem as int
    }

    open spec fn nodes_per_elem(&self) -> int {
        self@.elemsize as int
    }

    open spec fn global_len(&self) -> int {
        self@.lsize as int
    }

    open spec fn comps(&self) -> int {
        self@.ncomp as int
    }

    open spec fn refusal(&self, t_mode: TransposeMode, ulen: nat, vlen: nat) -> Option<
        (ErrorKind, Seq<char>),
    > {
        transfer_refusal(
            t_mode,
            ulen,
            vlen,
            self@.lsize as int,
            self@.count(),
            stopping_fault(self@.faults(), self@.count()),
        )
    }

    open spec fn applied(&self, t_mode: TransposeMode, u: Seq<T>, v: Seq<T>) -> Seq<T> {
        let done = first_fault(self@.faults(), 0, self@.count());
        match t_mode {
            TransposeMode::NoTranspose => if u.len() == self@.lsize && v.len() == self@.count() {
                gathered(self@.targets(), done, u, v)
            } else {
                v
            },
            TransposeMode::Transpose => if u.len() == self@.count() && v.len() == self@.lsize {
                scattered(self@.targets(), done, u, v)
            } else {
                v
            },
        }
    }

    open spec fn gives_pattern(&self, r: ReedResult<CsrPattern>) -> bool {
        match self@.layout {
            LayoutView::Offset { offsets, compstride } => sparsity_outcome(
                self@.nelem,
                self@.elemsize,
                self@.ncomp,
                compstride,
                self@.lsize,
                offsets,
                r,
            ),
            LayoutView::Strided { .. } => refused(
                r,
                ErrorKind::ElemRestriction,
                "assembled_csr_pattern: strided layout has no explicit per-element L-node indices"@,
            ),
        }
    }

    fn num_elements(&self) -> (n: usize) {
        self.nelem
    }

    fn num_dof_per_elem(&self) -> (n: usize) {
        self.elemsize
    }

    fn num_global_dof(&self) -> (n: usize) {
        self.lsize
    }

    fn num_comp(&self) -> (n: usize) {
        self.ncomp
    }

    fn apply(&self, t_mode: TransposeMode, u: &[T], v: &mut [T]) -> (r: ReedResult<()>) {
        let local: usize = self.local_size();
        match t_mode {
            TransposeMode::NoTranspose => {
                if u.len() != self.lsize {
                    return Err(
                        length_error("input length ", u.len(), " != global size ", self.lsize),
                    );
                }
                if v.len() != local {
                    return Err(length_error("output length ", v.len(), " != local size ", local));
                }
                gather(self, local, u, v)
            },
            TransposeMode::Transpose => {
                if u.len() != local {
                    return Err(length_error("input length ", u.len(), " != local size ", local));
                }
                if v.len() != self.lsize {
                    return Err(
                        length_error("output length ", v.len(), " != global size ", self.lsize),
                    );
                }
                scatter(self, local, u, v)
            },
        }
    }

    fn assembled_csr_pattern(&self) -> (r: ReedResult<CsrPattern>) {
        match &self.layout {
            RestrictionLayout::Offset { offsets, compstride } => {
                csr_sparsity_from_offset_restriction(
                    self.nelem,
                    self.elemsize,
                    self.ncomp,
                    *compstride,
                    self.lsize,
                    offsets.as_slice(),
                )
            },
            RestrictionLayout::Strided { .. } => Err(
                ReedError::ElemRestriction(
                    Message::new(
                        "assembled_csr_pattern: strided layout has no explicit per-element L-node indices",
                    ).done(),
                ),
            ),
        }
    }
}

impl<T: Real> Clone for CpuElemRestriction<T> {
    fn clone(&self) -> (r: Self)
        ensures
            r@ == self@,
    {
        let layout = match &self.layout {
            RestrictionLayout::Offset { offsets, compstride } => {
                let copy = offsets.clone();
                assert(copy@ =~= offsets@);
                RestrictionLayout::Offset { offsets: copy, compstride: *compstride }
            },
            RestrictionLayout::Strided { strides } => {
                RestrictionLayout::Strided { strides: *strides }
            },
        };
        CpuElemRestriction {
            nelem: self.nelem,
            elemsize: self.elemsize,
            ncomp: self.ncomp,
            lsize: self.lsize,
            layout,
            marker: core::marker::PhantomData,
        }
    }
}

impl<T: Real + 'static> BoxedClone<T> for CpuElemRestriction<T> {
    fn boxed_clone(&self) -> (r: ReedResult<Box<dyn ElemRestrictionTrait<T>>>)
        ensures
            r is Ok,
    {
        Ok(Box::new(self.clone()))
    }
}

/// Where a scatter is accepted, every local position maps into the global vector.
proof fn lemma_accepted_targets<T: Real>(r: CpuElemRestriction<T>, w: Seq<T>, v: Seq<T>)
    requires
        r.wf(),
        r.refusal(TransposeMode::Transpose, w.len(), v.len()) is None,
    ensures
        first_fault(r@.faults(), 0, r@.count()) == r@.count(),
        forall|l: int| 0 <= l < r@.count() ==> 0 <= #[trigger] (r@.targets())(l) < v.len(),
{
    let n = r@.count();
    let done = first_fault(r@.faults(), 0, n);
    lemma_first_fault_range(r@.faults(), 0, n);
    assert(done == n);
    assert forall|l: int| 0 <= l < n implies 0 <= #[trigger] (r@.targets())(l) < v.len() by {
        lemma_before_first_fault(r@.faults(), 0, n, l);
        assert((r@.faults())(l) is None);
        lemma_position(r@, l);
        if r@.layout is Offset {
            assert(0 <= r@.comp(l) * (r@.layout->Offset_compstride)) by (nonlinear_arith)
                requires
                    0 <= r@.comp(l),
                    0 <= r@.layout->Offset_compstride,
            ;
        }
    }
}

// ── laws ────────────────────────────────────────────────────────────────────

/// The transposed application is the adjoint of the forward one: adding the local vector `w` into
/// `v` changes the pairing of `v` with a global vector `u` by the pairing of the gathered `u`
/// with `w`.
pub proof fn law_restriction_adjoint<T: Real>(
    r: CpuElemRestriction<T>,
    u: Seq<T>,
    w: Seq<T>,
    v: Seq<T>,
    x: Seq<T>,
)
    requires
        exact_ring::<T>(),
        r.wf(),
        r.refusal(TransposeMode::NoTranspose, u.len(), x.len()) is None,
        r.refusal(TransposeMode::Transpose, w.len(), v.len()) is None,
    ensures
        inner(u, r.applied(TransposeMode::Transpose, w, v)) == inner(u, v).plus(
            inner(r.applied(TransposeMode::NoTranspose, u, x), w),
        ),
{
    let n = r@.count();
    lemma_accepted_targets(r, w, v);
    lemma_scatter_adjoint(r@.targets(), n, u, w, v, x);
}

/// The transpose adds to each entry of the global vector, one after the other, the local entries
/// that map to it, and leaves an entry alone that none maps to. In exact arithmetic it adds their
/// sum.
pub proof fn law_scatter_adds_sums<T: Real>(
    r: CpuElemRestriction<T>,
    w: Seq<T>,
    v: Seq<T>,
    i: int,
)
    requires
        r.wf(),
        r.refusal(TransposeMode::Transpose, w.len(), v.len()) is None,
        0 <= i < v.len(),
    ensures
        r.applied(TransposeMode::Transpose, w, v)[i] == accumulated(
            r@.targets(),
            r@.count(),
            w,
            i,
            v[i],
        ),
        exact_ring::<T>() ==> r.applied(TransposeMode::Transpose, w, v)[i] == v[i].plus(
            sum(r@.count(), shares(r@.targets(), w, i)),
        ),
        (forall|l: int| 0 <= l < r@.count() ==> #[trigger] (r@.targets())(l) != i) ==> r.applied(
            TransposeMode::Transpose,
            w,
            v,
        )[i] == v[i],
{
    let (g, n) = (r@.targets(), r@.count());
    lemma_accepted_targets(r, w, v);
    lemma_scatter_accumulates(g, n, w, v, i);
    if exact_ring::<T>() {
        lemma_scatter_adds(g, n, w, v, i);
    }
    if forall|l: int| 0 <= l < n ==> #[trigger] g(l) != i {
        lemma_scatter_keeps(g, n, w, v, i);
    }
}

/// Gathering depends on nothing but the global vector: what the output held before is overwritten.
pub proof fn law_gather_overwrites<T: Real>(
    r: CpuElemRestriction<T>,
    u: Seq<T>,
    x: Seq<T>,
    y: Seq<T>,
)
    requires
        r.wf(),
        x.len() == y.len(),
        r.refusal(TransposeMode::NoTranspose, u.len(), x.len()) is None,
    ensures
        r.applied(TransposeMode::NoTranspose, u, x) == r.applied(TransposeMode::NoTranspose, u, y),
{
    lemma_first_fault_range(r@.faults(), 0, r@.count());
    assert(r.applied(TransposeMode::NoTranspose, u, x) =~= r.applied(
        TransposeMode::NoTranspose,
        u,
        y,
    ));
}

/// Local position `(e * ncomp + c) * elemsize + l` belongs to component `c` of node `l` of element
/// `e`. Gathering reads it from the global index of that node and component.
pub proof fn law_gather_reads<T: Real>(
    r: CpuElemRestriction<T>,
    u: Seq<T>,
    v: Seq<T>,
    e: int,
    c: int,
    l: int,
)
    requires
        r.wf(),
        r.refusal(TransposeMode::NoTranspose, u.len(), v.len()) is None,
        0 <= e < r@.nelem,
        0 <= c < r@.ncomp,
        0 <= l < r@.elemsize,
    ensures
        r.applied(TransposeMode::NoTranspose, u, v)[(e * r@.ncomp + c) * r@.elemsize + l] == u[(
        match r@.layout {
            LayoutView::Offset { offsets, compstride } => offsets[e * r@.elemsize + l] + c
                * compstride,
            LayoutView::Strided { node, comp, elem } => l * node + c * comp + e * elem,
        })],
{
    let (ne, nc, es) = (r@.nelem as int, r@.ncomp as int, r@.elemsize as int);
    lemma_flat3(e, ne, c, nc, l, es);
    assert(ne * es * nc == ne * nc * es) by (nonlinear_arith);
    lemma_first_fault_range(r@.faults(), 0, r@.count());
}

} // verus!
