//! The backend that works in host memory.

use vstd::prelude::*;

use crate::basis::BasisTrait;
use crate::cpu::basis_lagrange::LagrangeBasis;
#[allow(unused_imports)]
use crate::cpu::basis_lagrange::{lagrange_refusal, lagrange_view, power};
use crate::cpu::basis_nedelec::NedelecBasis;
#[allow(unused_imports)]
use crate::cpu::basis_nedelec::{nedelec_refusal, nedelec_view};
use crate::cpu::basis_rt::RaviartThomasBasis;
#[allow(unused_imports)]
use crate::cpu::basis_rt::{rt_refusal, rt_view};
use crate::cpu::basis_simplex::SimplexBasis;
#[allow(unused_imports)]
use crate::cpu::basis_simplex::{simplex_refusal, simplex_view};
use crate::cpu::elem_restriction::CpuElemRestriction;
#[allow(unused_imports)]
use crate::cpu::elem_restriction::{LayoutView, RestrictionView};
use crate::cpu::elem_restriction_face::CpuFaceElemRestriction;
#[allow(unused_imports)]
use crate::cpu::elem_restriction_face::FaceView;
use crate::cpu::vector::CpuVector;
#[allow(unused_imports)]
use crate::csr::CsrPattern;
use crate::elem_restriction::ElemRestrictionTrait;
use crate::enums::{ElemTopology, QuadMode};
#[allow(unused_imports)]
use crate::enums::{EvalMode, TransposeMode};
use crate::error::{ErrorKind, ReedError, ReedResult};
#[allow(unused_imports)]
use crate::error::refused;
use crate::reed::{Backend, OffsetShape};
use crate::scalar::{Real, Scalar};
use crate::text::Message;
#[allow(unused_imports)]
use crate::text::decimal;
use crate::types::CeedInt;
#[allow(unused_imports)]
use crate::vector::same_vector;
use crate::vector::VectorTrait;

verus! {

// ── what a made object does ─────────────────────────────────────────────────

/// Two restrictions do the same.
pub open spec fn same_restriction<
    T: Real,
    A: ElemRestrictionTrait<T> + ?Sized,
    B: ElemRestrictionTrait<T> + ?Sized,
>(a: &A, b: &B) -> bool {
    &&& a.wf() == b.wf()
    &&& a.elements() == b.elements()
    &&& a.nodes_per_elem() == b.nodes_per_elem()
    &&& a.global_len() == b.global_len()
    &&& a.comps() == b.comps()
    &&& forall|t_mode: TransposeMode, ulen: nat, vlen: nat| #[trigger]
        a.refusal(t_mode, ulen, vlen) == b.refusal(t_mode, ulen, vlen)
    &&& forall|t_mode: TransposeMode, u: Seq<T>, v: Seq<T>| #[trigger]
        a.applied(t_mode, u, v) == b.applied(t_mode, u, v)
    &&& forall|r: ReedResult<CsrPattern>| #[trigger] a.gives_pattern(r) == b.gives_pattern(r)
}

/// Two bases do the same.
pub open spec fn same_basis<
    T: Real,
    A: BasisTrait<T> + ?Sized,
    B: BasisTrait<T> + ?Sized,
>(a: &A, b: &B) -> bool {
    &&& a.wf() == b.wf()
    &&& a.dimension() == b.dimension()
    &&& a.dofs() == b.dofs()
    &&& a.qpoints() == b.qpoints()
    &&& a.comps() == b.comps()
    &&& a.weight_values() == b.weight_values()
    &&& a.point_values() == b.point_values()
    &&& a.tensor_tables() == b.tensor_tables()
    &&& forall|face: int| #[trigger] a.face_weight_values(face) == b.face_weight_values(face)
    &&& forall|face: int| #[trigger] a.face_point_values(face) == b.face_point_values(face)
    &&& forall|n: int, t: bool, m: EvalMode, ulen: nat, vlen: nat| #[trigger]
        a.admits(n, t, m, ulen, vlen) == b.admits(n, t, m, ulen, vlen)
    &&& forall|n: int, t: bool, m: EvalMode, ulen: nat, vlen: nat| #[trigger]
        a.refusal(n, t, m, ulen, vlen) == b.refusal(n, t, m, ulen, vlen)
    &&& forall|n: int, t: bool, m: EvalMode, u: Seq<T>, v: Seq<T>| #[trigger]
        a.applied(n, t, m, u, v) == b.applied(n, t, m, u, v)
}

/// `r` holds a vector that does what `b` does.
pub open spec fn holds_vector<T: Real, B: VectorTrait<T>>(
    r: ReedResult<Box<dyn VectorTrait<T>>>,
    b: B,
) -> bool {
    r matches Ok(a) && same_vector(&*a, &b)
}

/// `r` holds a restriction that does what `b` does.
pub open spec fn holds_restriction<T: Real, B: ElemRestrictionTrait<T>>(
    r: ReedResult<Box<dyn ElemRestrictionTrait<T>>>,
    b: B,
) -> bool {
    r matches Ok(a) && same_restriction(&*a, &b)
}

/// `r` holds a basis that does what `b` does.
pub open spec fn holds_basis<T: Real, B: BasisTrait<T>>(
    r: ReedResult<Box<dyn BasisTrait<T>>>,
    b: B,
) -> bool {
    r matches Ok(a) && same_basis(&*a, &b)
}

/// `r` is what making a face restriction from the given tables gives.
pub open spec fn makes_face_restriction<T: Real>(
    view: FaceView,
    r: ReedResult<Box<dyn ElemRestrictionTrait<T>>>,
) -> bool {
    match view.table_message() {
        Some(m) => refused(r, ErrorKind::InvalidArgument, m),
        None => match r {
            Ok(_) => view.valid() && exists|c: CpuFaceElemRestriction<T>|
                c@ == view && #[trigger] holds_restriction(r, c),
            Err(e) => view.entry_fault(e@),
        },
    }
}

// ── sizes ───────────────────────────────────────────────────────────────────

/// The message about sizes whose products leave the machine range.
pub open spec fn overflow_text(what: Seq<char>) -> Seq<char> {
    what + ": size overflow"@
}

fn overflow(what: &str) -> (e: ReedError)
    ensures
        e@ == (ErrorKind::InvalidArgument, overflow_text(what@)),
{
    ReedError::InvalidArgument(Message::new(what).text(": size overflow").done())
}

/// The tables of a face restriction can be indexed.
pub open spec fn face_sizes_fit(
    num_faces: usize,
    num_dof_per_face: usize,
    num_dof_per_elem: usize,
    ncomp: usize,
) -> bool {
    &&& num_faces * num_dof_per_face <= usize::MAX
    &&& num_faces * num_dof_per_face * ncomp <= usize::MAX
    &&& ncomp * num_dof_per_elem <= usize::MAX
}

/// The tables of a tensor-product basis can be indexed.
pub open spec fn lagrange_sizes_fit(dim: usize, p: usize, q: usize) -> bool {
    &&& p <= i64::MAX
    &&& q <= i64::MAX
    &&& 1 <= dim <= 3 && p >= 2 && q >= 1 ==> {
        &&& power(p as int, dim as int) <= usize::MAX
        &&& power(q as int, dim as int) * dim <= usize::MAX
        &&& q * p <= usize::MAX
    }
}

/// The tables of a simplex basis can be indexed.
pub open spec fn simplex_sizes_fit(topo: ElemTopology, q: usize) -> bool {
    topo == ElemTopology::Line ==> q <= i64::MAX && q * 4 <= usize::MAX
}

fn product_fits(a: usize, b: usize) -> (r: bool)
    ensures
        r == (a * b <= usize::MAX),
{
    a.checked_mul(b).is_some()
}

fn face_fits(num_faces: usize, num_dof_per_face: usize, num_dof_per_elem: usize, ncomp: usize) -> (r:
    bool)
    ensures
        r == face_sizes_fit(num_faces, num_dof_per_face, num_dof_per_elem, ncomp),
{
    match num_faces.checked_mul(num_dof_per_face) {
        Some(n) => product_fits(n, ncomp) && product_fits(ncomp, num_dof_per_elem),
        None => false,
    }
}

fn power_of(b: usize, d: usize) -> (r: Option<usize>)
    requires
        1 <= b,
    ensures
        match r {
            Some(n) => n == power(b as int, d as int),
            None => power(b as int, d as int) > usize::MAX,
        },
{
    if d <= 1 {
        Some(b)
    } else if d == 2 {
        b.checked_mul(b)
    } else {
        match b.checked_mul(b) {
            Some(n) => n.checked_mul(b),
            None => {
                proof {
                    let (x, y) = (b as int, b * b);
                    assert(y <= y * x) by (nonlinear_arith)
                        requires
                            1 <= x,
                            0 <= y,
                    ;
                }
                None
            },
        }
    }
}

fn lagrange_fits(dim: usize, p: usize, q: usize) -> (r: bool)
    ensures
        r == lagrange_sizes_fit(dim, p, q),
{
    if p as u64 > i64::MAX as u64 || q as u64 > i64::MAX as u64 {
        return false;
    }
    if dim < 1 || dim > 3 || p < 2 || q < 1 {
        return true;
    }
    if !product_fits(q, p) {
        return false;
    }
    match (power_of(p, dim), power_of(q, dim)) {
        (Some(_), Some(m)) => product_fits(m, dim),
        (_, None) => {
            proof {
                let (x, y) = (power(q as int, dim as int), dim as int);
                assert(x <= x * y) by (nonlinear_arith)
                    requires
                        0 <= x,
                        1 <= y,
                ;
            }
            false
        },
        _ => false,
    }
}

// ── the backend ─────────────────────────────────────────────────────────────

/// The backend in host memory.
pub struct CpuBackend {
    resource: String,
}

impl CpuBackend {
    /// Name of the resource.
    pub closed spec fn called(&self) -> Seq<char> {
        self.resource@
    }

    /// A backend under the given name.
    pub fn new(resource: &str) -> (b: Self)
        ensures
            b.called() == resource@,
    {
        CpuBackend { resource: resource.to_owned() }
    }
}

impl<T: Scalar> Backend<T> for CpuBackend {
    open spec fn name(&self) -> Seq<char> {
        self.called()
    }

    open spec fn makes_vector(&self, size: usize, r: ReedResult<Box<dyn VectorTrait<T>>>) -> bool {
        exists|v: CpuVector<T>|
            v.values() == Seq::new(size as nat, |i: int| T::zero_val()) && #[trigger] holds_vector(
                r,
                v,
            )
    }

    open spec fn makes_restriction(
        &self,
        shape: OffsetShape,
        offsets: Seq<CeedInt>,
        r: ReedResult<Box<dyn ElemRestrictionTrait<T>>>,
    ) -> bool {
        let n = shape.nelem * shape.elemsize;
        if n > usize::MAX {
            refused(r, ErrorKind::InvalidArgument, overflow_text("create_elem_restriction"@))
        } else if offsets.len() != n {
            refused(
                r,
                ErrorKind::InvalidArgument,
                "offsets length "@ + decimal(offsets.len()) + " != nelem*elemsize "@ + decimal(
                    n as nat,
                ),
            )
        } else {
            exists|c: CpuElemRestriction<T>|
                c@ == (RestrictionView {
                    nelem: shape.nelem,
                    elemsize: shape.elemsize,
                    ncomp: shape.ncomp,
                    lsize: shape.lsize,
                    layout: LayoutView::Offset { offsets, compstride: shape.compstride },
                }) && #[trigger] holds_restriction(r, c)
        }
    }

    open spec fn makes_strided(
        &self,
        nelem: usize,
        elemsize: usize,
        ncomp: usize,
        lsize: usize,
        strides: Seq<CeedInt>,
        r: ReedResult<Box<dyn ElemRestrictionTrait<T>>>,
    ) -> bool {
        exists|c: CpuElemRestriction<T>|
            c@ == (RestrictionView {
                nelem,
                elemsize,
                ncomp,
                lsize,
                layout: LayoutView::Strided {
                    node: strides[0] as int,
                    comp: strides[1] as int,
                    elem: strides[2] as int,
                },
            }) && #[trigger] holds_restriction(r, c)
    }

    open spec fn makes_lagrange(
        &self,
        dim: usize,
        ncomp: usize,
        p: usize,
        q: usize,
        qmode: QuadMode,
        r: ReedResult<Box<dyn BasisTrait<T>>>,
    ) -> bool {
        if !lagrange_sizes_fit(dim, p, q) {
            refused(
                r,
                ErrorKind::InvalidArgument,
                overflow_text("create_basis_tensor_h1_lagrange"@),
            )
        } else {
            match lagrange_refusal::<T>(dim, p, q, qmode) {
                Some(m) => refused(r, ErrorKind::Basis, m),
                None => exists|b: LagrangeBasis<T>|
                    b.wf() && b@ == lagrange_view::<T>(dim, ncomp, p, q, qmode)
                        && #[trigger] holds_basis(r, b),
            }
        }
    }

    open spec fn makes_simplex(
        &self,
        topo: ElemTopology,
        poly: usize,
        ncomp: usize,
        q: usize,
        r: ReedResult<Box<dyn BasisTrait<T>>>,
    ) -> bool {
        if !simplex_sizes_fit(topo, q) {
            refused(r, ErrorKind::InvalidArgument, overflow_text("create_basis_h1_simplex"@))
        } else {
            match simplex_refusal::<T>(topo, poly, q) {
                Some(m) => refused(r, ErrorKind::Basis, m),
                None => exists|b: SimplexBasis<T>|
                    b.wf() && b@ == simplex_view::<T>(topo, poly, ncomp, q)
                        && #[trigger] holds_basis(r, b),
            }
        }
    }

    fn resource_name(&self) -> (s: &str) {
        self.resource.as_str()
    }

    fn create_vector(&self, size: usize) -> (r: ReedResult<Box<dyn VectorTrait<T>>>) {
        let v = CpuVector::<T>::new(size);
        let ghost made = v;
        let r: ReedResult<Box<dyn VectorTrait<T>>> = Ok(Box::new(v));
        assert(holds_vector(r, made));
        r
    }

    fn create_elem_restriction(
        &self,
        nelem: usize,
        elemsize: usize,
        ncomp: usize,
        compstride: usize,
        lsize: usize,
        offsets: &[CeedInt],
    ) -> (r: ReedResult<Box<dyn ElemRestrictionTrait<T>>>) {
        if !product_fits(nelem, elemsize) {
            return Err(overflow("create_elem_restriction"));
        }
        match CpuElemRestriction::<T>::new_offset(
            nelem,
            elemsize,
            ncomp,
            compstride,
            lsize,
            offsets,
        ) {
            Ok(c) => {
                let ghost made = c;
                let r: ReedResult<Box<dyn ElemRestrictionTrait<T>>> = Ok(Box::new(c));
                assert(holds_restriction(r, made));
                r
            },
            Err(e) => Err(e),
        }
    }

    fn create_strided_elem_restriction(
        &self,
        nelem: usize,
        elemsize: usize,
        ncomp: usize,
        lsize: usize,
        strides: [CeedInt; 3],
    ) -> (r: ReedResult<Box<dyn ElemRestrictionTrait<T>>>) {
        match CpuElemRestriction::<T>::new_strided(nelem, elemsize, ncomp, lsize, strides) {
            Ok(c) => {
                let ghost made = c;
                let r: ReedResult<Box<dyn ElemRestrictionTrait<T>>> = Ok(Box::new(c));
                assert(holds_restriction(r, made));
                r
            },
            Err(e) => Err(e),
        }
    }

    /// A restriction as [`CpuFaceElemRestriction::new`] makes it, and its errors.
    fn create_face_elem_restriction(
        &self,
        num_faces: usize,
        num_dof_per_face: usize,
        num_dof_per_elem: usize,
        ncomp: usize,
        num_global_dof: usize,
        face_to_elem: Vec<(usize, usize)>,
        face_offsets: &[CeedInt],
        elem_offsets: &[CeedInt],
        face_to_elem_local: Vec<usize>,
    ) -> (r: ReedResult<Box<dyn ElemRestrictionTrait<T>>>)
        ensures
            if face_sizes_fit(num_faces, num_dof_per_face, num_dof_per_elem, ncomp) {
                makes_face_restriction::<T>(
                    (FaceView {
                        num_faces,
                        num_dof_per_face,
                        num_dof_per_elem,
                        ncomp,
                        num_global_dof,
                        face_to_elem: face_to_elem@,
                        face_offsets: face_offsets@,
                        elem_offsets: elem_offsets@,
                        face_to_elem_local: face_to_elem_local@,
                    }),
                    r,
                )
            } else {
                refused(
                    r,
                    ErrorKind::InvalidArgument,
                    overflow_text("create_face_elem_restriction"@),
                )
            },
    {
        if !face_fits(num_faces, num_dof_per_face, num_dof_per_elem, ncomp) {
            return Err(overflow("create_face_elem_restriction"));
        }
        let faces = copied_indices(face_offsets);
        let elems = copied_indices(elem_offsets);
        match CpuFaceElemRestriction::<T>::new(
            num_faces,
            num_dof_per_face,
            num_dof_per_elem,
            ncomp,
            num_global_dof,
            face_to_elem,
            faces,
            elems,
            face_to_elem_local,
        ) {
            Ok(c) => {
                let ghost made = c;
                let r: ReedResult<Box<dyn ElemRestrictionTrait<T>>> = Ok(Box::new(c));
                assert(holds_restriction(r, made));
                r
            },
            Err(e) => Err(e),
        }
    }

    fn create_basis_tensor_h1_lagrange(
        &self,
        dim: usize,
        ncomp: usize,
        p: usize,
        q: usize,
        qmode: QuadMode,
    ) -> (r: ReedResult<Box<dyn BasisTrait<T>>>) {
        if !lagrange_fits(dim, p, q) {
            return Err(overflow("create_basis_tensor_h1_lagrange"));
        }
        match LagrangeBasis::<T>::new(dim, ncomp, p, q, qmode) {
            Ok(b) => {
                let ghost made = b;
                let r: ReedResult<Box<dyn BasisTrait<T>>> = Ok(Box::new(b));
                assert(holds_basis(r, made));
                r
            },
            Err(e) => Err(e),
        }
    }

    fn create_basis_h1_simplex(
        &self,
        topo: ElemTopology,
        poly: usize,
        ncomp: usize,
        q: usize,
    ) -> (r: ReedResult<Box<dyn BasisTrait<T>>>) {
        if topo == ElemTopology::Line && (q as u64 > i64::MAX as u64 || !product_fits(
            q,
            4,
        )) {
            return Err(overflow("create_basis_h1_simplex"));
        }
        match SimplexBasis::<T>::new(topo, poly, ncomp, q) {
            Ok(b) => {
                let ghost made = b;
                let r: ReedResult<Box<dyn BasisTrait<T>>> = Ok(Box::new(b));
                assert(holds_basis(r, made));
                r
            },
            Err(e) => Err(e),
        }
    }

    /// A basis as [`NedelecBasis::new`] makes it, and its errors.
    fn create_basis_hcurl_nedelec(
        &self,
        topo: ElemTopology,
        p: usize,
        q: usize,
        _qmode: QuadMode,
    ) -> (r: ReedResult<Box<dyn BasisTrait<T>>>)
        ensures
            match nedelec_refusal::<T>(topo, p, q) {
                Some(m) => refused(r, ErrorKind::Basis, m),
                None => exists|b: NedelecBasis<T>|
                    b.wf() && b@ == nedelec_view::<T>(topo, p, q) && #[trigger] holds_basis(r, b),
            },
    {
        match NedelecBasis::<T>::new(topo, p, q) {
            Ok(b) => {
                let ghost made = b;
                let r: ReedResult<Box<dyn BasisTrait<T>>> = Ok(Box::new(b));
                assert(holds_basis(r, made));
                r
            },
            Err(e) => Err(e),
        }
    }

    /// A basis as [`RaviartThomasBasis::new`] makes it, and its errors.
    fn create_basis_hdiv_raviart_thomas(
        &self,
        topo: ElemTopology,
        p: usize,
        q: usize,
        _qmode: QuadMode,
    ) -> (r: ReedResult<Box<dyn BasisTrait<T>>>)
        ensures
            match rt_refusal::<T>(topo, p, q) {
                Some(m) => refused(r, ErrorKind::Basis, m),
                None => exists|b: RaviartThomasBasis<T>|
                    b.wf() && b@ == rt_view::<T>(topo, p, q) && #[trigger] holds_basis(r, b),
            },
    {
        match RaviartThomasBasis::<T>::new(topo, p, q) {
            Ok(b) => {
                let ghost made = b;
                let r: ReedResult<Box<dyn BasisTrait<T>>> = Ok(Box::new(b));
                assert(holds_basis(r, made));
                r
            },
            Err(e) => Err(e),
        }
    }
}

/// A copy of a list of indices.
fn copied_indices(s: &[CeedInt]) -> (v: Vec<CeedInt>)
    ensures
        v@ == s@,
{
    let mut v: Vec<CeedInt> = Vec::new();
    for i in 0..s.len()
        invariant
            v@ == s@.take(i as int),
    {
        v.push(s[i]);
        assert(v@ =~= s@.take(i + 1));
    }
    assert(v@ =~= s@);
    v
}

} // verus!
