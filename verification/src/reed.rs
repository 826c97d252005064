//! The library context: a backend and the objects it makes.

use std::sync::Arc;
use vstd::prelude::*;

use crate::basis::BasisTrait;
use crate::cpu::backend::CpuBackend;
use crate::elem_restriction::ElemRestrictionTrait;
use crate::enums::{ElemTopology, QuadMode};
use crate::error::{ErrorKind, ReedError, ReedResult};
#[allow(unused_imports)]
use crate::error::refused;
use crate::qfunction::QFunctionTrait;
use crate::scalar::{Real, Scalar};
use crate::text::Message;
#[allow(unused_imports)]
use crate::text::{decimal, signed_decimal};
use crate::types::CeedInt;
use crate::vector::VectorTrait;

verus! {

// ── indices from wider integers ─────────────────────────────────────────────

/// The number fits the index type.
pub open spec fn fits(v: i64) -> bool {
    i32::MIN <= v <= i32::MAX
}

/// Position of the first number at or after `i` that does not fit.
pub open spec fn first_unfit(s: Seq<i64>, i: int) -> Option<int>
    decreases s.len() - i,
{
    if i >= s.len() {
        None
    } else if !fits(s[i]) {
        Some(i)
    } else {
        first_unfit(s, i + 1)
    }
}

/// The numbers as indices.
pub open spec fn narrowed(s: Seq<i64>) -> Seq<CeedInt> {
    Seq::new(s.len(), |i: int| s[i] as i32)
}

/// The message about an offset that does not fit.
pub open spec fn offset_message(s: Seq<i64>, i: int) -> Seq<char> {
    "offset["@ + decimal(i as nat) + "]="@ + signed_decimal(s[i] as int)
        + " does not fit in i32 (Reed restriction index type)"@
}

/// The message about a stride that does not fit.
pub open spec fn stride_message(s: Seq<i64>, i: int) -> Seq<char> {
    "strides["@ + decimal(i as nat) + "]="@ + signed_decimal(s[i] as int)
        + " does not fit in i32 (Reed restriction stride type)"@
}

proof fn lemma_first_unfit(s: Seq<i64>, i: int)
    requires
        0 <= i <= s.len(),
    ensures
        match first_unfit(s, i) {
            Some(k) => i <= k < s.len() && !fits(s[k]) && forall|j: int|
                i <= j < k ==> fits(#[trigger] s[j]),
            None => forall|j: int| i <= j < s.len() ==> fits(#[trigger] s[j]),
        },
    decreases s.len() - i,
{
    if i < s.len() && fits(s[i]) {
        lemma_first_unfit(s, i + 1);
    }
}

/// Numbers are accepted exactly where all lie in the range of the index type, and then none
/// changes. Otherwise the first one outside that range is named.
pub proof fn law_narrowing_keeps_numbers(s: Seq<i64>)
    ensures
        first_unfit(s, 0) is None <==> forall|j: int|
            0 <= j < s.len() ==> i32::MIN <= #[trigger] s[j] <= i32::MAX,
        first_unfit(s, 0) is None ==> {
            &&& narrowed(s).len() == s.len()
            &&& forall|j: int| 0 <= j < s.len() ==> #[trigger] narrowed(s)[j] == s[j]
        },
        first_unfit(s, 0) matches Some(k) ==> {
            &&& 0 <= k < s.len()
            &&& s[k] < i32::MIN || s[k] > i32::MAX
            &&& forall|j: int| 0 <= j < k ==> i32::MIN <= #[trigger] s[j] <= i32::MAX
        },
{
    lemma_first_unfit(s, 0);
}

fn narrow(s: &[i64], what: &str, tail: &str) -> (r: ReedResult<Vec<CeedInt>>)
    ensures
        match first_unfit(s@, 0) {
            Some(i) => refused(
                r,
                ErrorKind::InvalidArgument,
                what@ + decimal(i as nat) + "]="@ + signed_decimal(s@[i] as int) + tail@,
            ),
            None => r matches Ok(v) && v@ == narrowed(s@),
        },
{
    let mut v: Vec<CeedInt> = Vec::new();
    for i in 0..s.len()
        invariant
            first_unfit(s@, 0) == first_unfit(s@, i as int),
            v@.len() == i,
            forall|k: int| 0 <= k < i ==> #[trigger] v@[k] == s@[k] as i32,
    {
        let x: i64 = s[i];
        if x < i32::MIN as i64 || x > i32::MAX as i64 {
            return Err(
                ReedError::InvalidArgument(
                    Message::new(what).num(i).text("]=").signed(x).text(tail).done(),
                ),
            );
        }
        v.push(x as i32);
    }
    assert(v@ =~= narrowed(s@));
    Ok(v)
}

/// Converts offsets to the index type.
pub fn ceed_int_offsets_to_i32(offsets: &[i64]) -> (r: ReedResult<Vec<CeedInt>>)
    ensures
        match first_unfit(offsets@, 0) {
            Some(i) => refused(r, ErrorKind::InvalidArgument, offset_message(offsets@, i)),
            None => r matches Ok(v) && v@ == narrowed(offsets@),
        },
{
    narrow(offsets, "offset[", " does not fit in i32 (Reed restriction index type)")
}

/// Converts strides to the index type.
pub fn ceed_int_strides_to_i32(strides: [i64; 3]) -> (r: ReedResult<[CeedInt; 3]>)
    ensures
        match first_unfit(strides@, 0) {
            Some(i) => refused(r, ErrorKind::InvalidArgument, stride_message(strides@, i)),
            None => r matches Ok(v) && v@ == narrowed(strides@),
        },
{
    let s = vec![strides[0], strides[1], strides[2]];
    assert(s@ =~= strides@);
    match narrow(
        s.as_slice(),
        "strides[",
        " does not fit in i32 (Reed restriction stride type)",
    ) {
        Ok(v) => {
            let out: [CeedInt; 3] = [v[0], v[1], v[2]];
            assert(out@ =~= v@);
            Ok(out)
        },
        Err(e) => Err(e),
    }
}

// ── backends ────────────────────────────────────────────────────────────────

/// Shape of an offset restriction.
pub struct OffsetShape {
    pub nelem: usize,
    pub elemsize: usize,
    pub ncomp: usize,
    pub compstride: usize,
    pub lsize: usize,
}

/// A factory of vectors, restrictions and bases.
///
/// An implementation says, for each kind of object, which results it may give for which
/// parameters, failures included.
///
/// The specification functions default to an unknown value; a verified implementation defines
/// them.
pub trait Backend<T: Real> {
    /// Name of the resource.
    closed spec fn name(&self) -> Seq<char> {
        arbitrary()
    }

    /// `r` is a result of making a vector.
    closed spec fn makes_vector(&self, size: usize, r: ReedResult<Box<dyn VectorTrait<T>>>) -> bool {
        arbitrary()
    }

    /// `r` is a result of making an offset restriction.
    closed spec fn makes_restriction(
        &self,
        shape: OffsetShape,
        offsets: Seq<CeedInt>,
        r: ReedResult<Box<dyn ElemRestrictionTrait<T>>>,
    ) -> bool {
        arbitrary()
    }

    /// `r` is a result of making a strided restriction.
    closed spec fn makes_strided(
        &self,
        nelem: usize,
        elemsize: usize,
        ncomp: usize,
        lsize: usize,
        strides: Seq<CeedInt>,
        r: ReedResult<Box<dyn ElemRestrictionTrait<T>>>,
    ) -> bool {
        arbitrary()
    }

    /// `r` is a result of making a tensor-product basis.
    closed spec fn makes_lagrange(
        &self,
        dim: usize,
        ncomp: usize,
        p: usize,
        q: usize,
        qmode: QuadMode,
        r: ReedResult<Box<dyn BasisTrait<T>>>,
    ) -> bool {
        arbitrary()
    }

    /// `r` is a result of making a simplex basis.
    closed spec fn makes_simplex(
        &self,
        topo: ElemTopology,
        poly: usize,
        ncomp: usize,
        q: usize,
        r: ReedResult<Box<dyn BasisTrait<T>>>,
    ) -> bool {
        arbitrary()
    }

    /// Name of the resource.
    fn resource_name(&self) -> (s: &str)
        ensures
            s@ == self.name(),
    ;

    fn create_vector(&self, size: usize) -> (r: ReedResult<Box<dyn VectorTrait<T>>>)
        ensures
            self.makes_vector(size, r),
    ;

    fn create_elem_restriction(
        &self,
        nelem: usize,
        elemsize: usize,
        ncomp: usize,
        compstride: usize,
        lsize: usize,
        offsets: &[CeedInt],
    ) -> (r: ReedResult<Box<dyn ElemRestrictionTrait<T>>>)
        ensures
            self.makes_restriction(
                (OffsetShape { nelem, elemsize, ncomp, compstride, lsize }),
                offsets@,
                r,
            ),
    ;

    fn create_strided_elem_restriction(
        &self,
        nelem: usize,
        elemsize: usize,
        ncomp: usize,
        lsize: usize,
        strides: [CeedInt; 3],
    ) -> (r: ReedResult<Box<dyn ElemRestrictionTrait<T>>>)
        ensures
            self.makes_strided(nelem, elemsize, ncomp, lsize, strides@, r),
    ;

    /// Restriction to boundary faces.
    fn create_face_elem_restriction(
        &self,
        num_faces: usize,
        num_dof_per_face: usize,
        num_dof_per_elem: usize,
        ncomp: usize,
        num_global_dof: usize,
        face_to_elem: Vec<(usize, usize)>,
        face_offsets: &[CeedInt],
        elem_offsets: &[CeedInt],
        face_to_elem_local: Vec<usize>,
    ) -> (r: ReedResult<Box<dyn ElemRestrictionTrait<T>>>)
        default_ensures
            refused(
                r,
                ErrorKind::BackendNotSupported,
                unsupported_text("create_face_elem_restriction"@),
            ),
    {
        let _ = (
            num_faces,
            num_dof_per_face,
            num_dof_per_elem,
            ncomp,
            num_global_dof,
            face_to_elem,
            face_offsets,
            elem_offsets,
            face_to_elem_local,
        );
        Err(unsupported("create_face_elem_restriction"))
    }

    fn create_basis_tensor_h1_lagrange(
        &self,
        dim: usize,
        ncomp: usize,
        p: usize,
        q: usize,
        qmode: QuadMode,
    ) -> (r: ReedResult<Box<dyn BasisTrait<T>>>)
        ensures
            self.makes_lagrange(dim, ncomp, p, q, qmode, r),
    ;

    /// Nodal basis of order `poly` on a segment, triangle or tetrahedron, with `q` points.
    fn create_basis_h1_simplex(
        &self,
        topo: ElemTopology,
        poly: usize,
        ncomp: usize,
        q: usize,
    ) -> (r: ReedResult<Box<dyn BasisTrait<T>>>)
        ensures
            self.makes_simplex(topo, poly, ncomp, q, r),
    ;

    /// Edge basis.
    fn create_basis_hcurl_nedelec(
        &self,
        topo: ElemTopology,
        p: usize,
        q: usize,
        qmode: QuadMode,
    ) -> (r: ReedResult<Box<dyn BasisTrait<T>>>)
        default_ensures
            refused(
                r,
                ErrorKind::BackendNotSupported,
                unsupported_text("create_basis_hcurl_nedelec"@),
            ),
    {
        let _ = (topo, p, q, qmode);
        Err(unsupported("create_basis_hcurl_nedelec"))
    }

    /// Face basis.
    fn create_basis_hdiv_raviart_thomas(
        &self,
        topo: ElemTopology,
        p: usize,
        q: usize,
        qmode: QuadMode,
    ) -> (r: ReedResult<Box<dyn BasisTrait<T>>>)
        default_ensures
            refused(
                r,
                ErrorKind::BackendNotSupported,
                unsupported_text("create_basis_hdiv_raviart_thomas"@),
            ),
    {
        let _ = (topo, p, q, qmode);
        Err(unsupported("create_basis_hdiv_raviart_thomas"))
    }

    /// A quadrature function that runs on the device, if the backend has one of this name.
    fn try_device_q_function_by_name(&self, _name: &str) -> (r: Option<
        ReedResult<Box<dyn QFunctionTrait<T>>>,
    >)
        default_ensures
            r is None,
    {
        None
    }
}

/// The message of a backend that cannot make a kind of object; `what` names the request.
pub open spec fn unsupported_text(what: Seq<char>) -> Seq<char> {
    what + " is not implemented for this backend"@
}

/// The answer of a backend that cannot make a kind of object.
pub fn unsupported(what: &str) -> (e: ReedError)
    ensures
        e@ == (ErrorKind::BackendNotSupported, unsupported_text(what@)),
{
    ReedError::BackendNotSupported(
        Message::new(what).text(" is not implemented for this backend").done(),
    )
}

// ── the context ─────────────────────────────────────────────────────────────

/// `r` is what copying `data` into the vector `made` gives.
pub open spec fn copied_into<T: Real, V: VectorTrait<T> + ?Sized>(
    made: ReedResult<Box<V>>,
    data: Seq<T>,
    r: ReedResult<Box<V>>,
) -> bool {
    match made {
        Err(e) => r matches Err(x) && x@ == e@,
        Ok(v) => match v.copied(data).error {
            Some(e) => r matches Err(x) && x@ == e,
            None => r matches Ok(w) && w.values() == v.copied(data).values,
        },
    }
}

/// Copies `data` into a vector that was made for it.
pub fn copy_into<T: Real, V: VectorTrait<T> + ?Sized>(
    made: ReedResult<Box<V>>,
    data: &[T],
) -> (r: ReedResult<Box<V>>)
    ensures
        copied_into(made, data@, r),
{
    match made {
        Err(e) => Err(e),
        Ok(v) => {
            let mut w = v;
            match w.copy_from_slice(data) {
                Ok(_) => Ok(w),
                Err(e) => Err(e),
            }
        },
    }
}

/// The library context, on a backend of type `B`.
#[verifier::reject_recursive_types(T)]
#[verifier::reject_recursive_types(B)]
pub struct Reed<T: Real, B: Backend<T> + ?Sized> {
    backend: Arc<B>,
    number: core::marker::PhantomData<T>,
}

impl<T: Real, B: Backend<T> + ?Sized> Reed<T, B> {
    /// The backend.
    pub closed spec fn source(&self) -> &B {
        &*self.backend
    }

    /// A context on a backend.
    pub fn from_backend(backend: Arc<B>) -> (r: Self)
        ensures
            r.source() == &*backend,
    {
        Reed { backend, number: core::marker::PhantomData }
    }

    /// Name of the backend's resource.
    pub fn resource(&self) -> (s: String)
        ensures
            s@ == self.source().name(),
    {
        self.backend.resource_name().to_owned()
    }

    /// The backend.
    pub fn backend(&self) -> (b: &Arc<B>)
        ensures
            &**b == self.source(),
    {
        &self.backend
    }

    // ── vectors ─────────────────────────────────────────────────────────────

    /// A vector with `n` entries.
    pub fn vector(&self, n: usize) -> (r: ReedResult<Box<dyn VectorTrait<T>>>)
        ensures
            self.source().makes_vector(n, r),
    {
        self.backend.create_vector(n)
    }

    /// A vector with the given entries.
    pub fn vector_from_slice(&self, data: &[T]) -> (r: ReedResult<Box<dyn VectorTrait<T>>>)
        ensures
            exists|made: ReedResult<Box<dyn VectorTrait<T>>>|
                self.source().makes_vector(data@.len() as usize, made) && #[trigger] copied_into(
                    made,
                    data@,
                    r,
                ),
    {
        let n: usize = data.len();
        let made = self.backend.create_vector(n);
        copy_into(made, data)
    }

    // ── restrictions ────────────────────────────────────────────────────────

    /// A restriction by offsets.
    pub fn elem_restriction(
        &self,
        nelem: usize,
        elemsize: usize,
        ncomp: usize,
        compstride: usize,
        lsize: usize,
        offsets: &[CeedInt],
    ) -> (r: ReedResult<Box<dyn ElemRestrictionTrait<T>>>)
        ensures
            self.source().makes_restriction(
                (OffsetShape { nelem, elemsize, ncomp, compstride, lsize }),
                offsets@,
                r,
            ),
    {
        self.backend.create_elem_restriction(nelem, elemsize, ncomp, compstride, lsize, offsets)
    }

    /// A restriction by strides.
    pub fn strided_elem_restriction(
        &self,
        nelem: usize,
        elemsize: usize,
        ncomp: usize,
        lsize: usize,
        strides: [CeedInt; 3],
    ) -> (r: ReedResult<Box<dyn ElemRestrictionTrait<T>>>)
        ensures
            self.source().makes_strided(nelem, elemsize, ncomp, lsize, strides@, r),
    {
        self.backend.create_strided_elem_restriction(nelem, elemsize, ncomp, lsize, strides)
    }

    /// A restriction by offsets with one entry per quadrature point and element.
    pub fn elem_restriction_at_points(
        &self,
        nelem: usize,
        npoints_per_elem: usize,
        ncomp: usize,
        compstride: usize,
        lsize: usize,
        offsets: &[CeedInt],
    ) -> (r: ReedResult<Box<dyn ElemRestrictionTrait<T>>>)
        ensures
            match points_refusal(nelem, npoints_per_elem, offsets@.len()) {
                Some(m) => refused(r, ErrorKind::InvalidArgument, m),
                None => self.source().makes_restriction(
                    (OffsetShape { nelem, elemsize: npoints_per_elem, ncomp, compstride, lsize }),
                    offsets@,
                    r,
                ),
            },
    {
        match nelem.checked_mul(npoints_per_elem) {
            None => Err(
                ReedError::InvalidArgument(
                    Message::new("elem_restriction_at_points: size overflow").done(),
                ),
            ),
            Some(expected) => {
                if offsets.len() != expected {
                    return Err(
                        ReedError::InvalidArgument(
                            Message::new("elem_restriction_at_points: offsets.len() ").num(
                                offsets.len(),
                            ).text(" != nelem * npoints_per_elem (").num(expected).text(")").done(),
                        ),
                    );
                }
                self.elem_restriction(nelem, npoints_per_elem, ncomp, compstride, lsize, offsets)
            },
        }
    }

    /// A restriction by offsets given as wider integers.
    pub fn elem_restriction_ceed_int_offsets(
        &self,
        nelem: usize,
        elemsize: usize,
        ncomp: usize,
        compstride: usize,
        lsize: usize,
        offsets: &[i64],
    ) -> (r: ReedResult<Box<dyn ElemRestrictionTrait<T>>>)
        ensures
            match first_unfit(offsets@, 0) {
                Some(i) => refused(r, ErrorKind::InvalidArgument, offset_message(offsets@, i)),
                None => self.source().makes_restriction(
                    (OffsetShape { nelem, elemsize, ncomp, compstride, lsize }),
                    narrowed(offsets@),
                    r,
                ),
            },
    {
        match ceed_int_offsets_to_i32(offsets) {
            Ok(v) => self.elem_restriction(nelem, elemsize, ncomp, compstride, lsize, v.as_slice()),
            Err(e) => Err(e),
        }
    }

    /// A restriction at points by offsets given as wider integers.
    pub fn elem_restriction_at_points_ceed_int_offsets(
        &self,
        nelem: usize,
        npoints_per_elem: usize,
        ncomp: usize,
        compstride: usize,
        lsize: usize,
        offsets: &[i64],
    ) -> (r: ReedResult<Box<dyn ElemRestrictionTrait<T>>>)
        ensures
            match first_unfit(offsets@, 0) {
                Some(i) => refused(r, ErrorKind::InvalidArgument, offset_message(offsets@, i)),
                None => match points_refusal(nelem, npoints_per_elem, offsets@.len()) {
                    Some(m) => refused(r, ErrorKind::InvalidArgument, m),
                    None => self.source().makes_restriction(
                        (OffsetShape {
                            nelem,
                            elemsize: npoints_per_elem,
                            ncomp,
                            compstride,
                            lsize,
                        }),
                        narrowed(offsets@),
                        r,
                    ),
                },
            },
    {
        match ceed_int_offsets_to_i32(offsets) {
            Ok(v) => self.elem_restriction_at_points(
                nelem,
                npoints_per_elem,
                ncomp,
                compstride,
                lsize,
                v.as_slice(),
            ),
            Err(e) => Err(e),
        }
    }

    /// A restriction by strides given as wider integers.
    pub fn strided_elem_restriction_ceed_int_strides(
        &self,
        nelem: usize,
        elemsize: usize,
        ncomp: usize,
        lsize: usize,
        strides: [i64; 3],
    ) -> (r: ReedResult<Box<dyn ElemRestrictionTrait<T>>>)
        ensures
            match first_unfit(strides@, 0) {
                Some(i) => refused(r, ErrorKind::InvalidArgument, stride_message(strides@, i)),
                None => self.source().makes_strided(
                    nelem,
                    elemsize,
                    ncomp,
                    lsize,
                    narrowed(strides@),
                    r,
                ),
            },
    {
        match ceed_int_strides_to_i32(strides) {
            Ok(s) => self.strided_elem_restriction(nelem, elemsize, ncomp, lsize, s),
            Err(e) => Err(e),
        }
    }

    /// A restriction to boundary faces.
    pub fn face_elem_restriction(
        &self,
        num_faces: usize,
        num_dof_per_face: usize,
        num_dof_per_elem: usize,
        ncomp: usize,
        num_global_dof: usize,
        face_to_elem: Vec<(usize, usize)>,
        face_offsets: &[CeedInt],
        elem_offsets: &[CeedInt],
        face_to_elem_local: Vec<usize>,
    ) -> (r: ReedResult<Box<dyn ElemRestrictionTrait<T>>>)
        ensures
            call_ensures(
                B::create_face_elem_restriction,
                (
                    self.source(),
                    num_faces,
                    num_dof_per_face,
                    num_dof_per_elem,
                    ncomp,
                    num_global_dof,
                    face_to_elem,
                    face_offsets,
                    elem_offsets,
                    face_to_elem_local,
                ),
                r,
            ),
    {
        self.backend.create_face_elem_restriction(
            num_faces,
            num_dof_per_face,
            num_dof_per_elem,
            ncomp,
            num_global_dof,
            face_to_elem,
            face_offsets,
            elem_offsets,
            face_to_elem_local,
        )
    }

    // ── bases ───────────────────────────────────────────────────────────────

    /// A tensor-product nodal basis.
    pub fn basis_tensor_h1_lagrange(
        &self,
        dim: usize,
        ncomp: usize,
        p: usize,
        q: usize,
        qmode: QuadMode,
    ) -> (r: ReedResult<Box<dyn BasisTrait<T>>>)
        ensures
            self.source().makes_lagrange(dim, ncomp, p, q, qmode, r),
    {
        self.backend.create_basis_tensor_h1_lagrange(dim, ncomp, p, q, qmode)
    }

    /// A nodal basis on a segment, triangle or tetrahedron.
    pub fn basis_h1_simplex(
        &self,
        topo: ElemTopology,
        poly: usize,
        ncomp: usize,
        q: usize,
    ) -> (r: ReedResult<Box<dyn BasisTrait<T>>>)
        ensures
            self.source().makes_simplex(topo, poly, ncomp, q, r),
    {
        self.backend.create_basis_h1_simplex(topo, poly, ncomp, q)
    }

    /// An edge basis.
    pub fn basis_hcurl_nedelec(
        &self,
        topo: ElemTopology,
        p: usize,
        q: usize,
        qmode: QuadMode,
    ) -> (r: ReedResult<Box<dyn BasisTrait<T>>>)
        ensures
            call_ensures(
                B::create_basis_hcurl_nedelec,
                (self.source(), topo, p, q, qmode),
                r,
            ),
    {
        self.backend.create_basis_hcurl_nedelec(topo, p, q, qmode)
    }

    /// A face basis.
    pub fn basis_hdiv_raviart_thomas(
        &self,
        topo: ElemTopology,
        p: usize,
        q: usize,
        qmode: QuadMode,
    ) -> (r: ReedResult<Box<dyn BasisTrait<T>>>)
        ensures
            call_ensures(
                B::create_basis_hdiv_raviart_thomas,
                (self.source(), topo, p, q, qmode),
                r,
            ),
    {
        self.backend.create_basis_hdiv_raviart_thomas(topo, p, q, qmode)
    }
}

/// Why offsets at points are refused, if they are.
pub open spec fn points_refusal(nelem: usize, npoints: usize, len: nat) -> Option<Seq<char>> {
    if nelem * npoints > usize::MAX {
        Some("elem_restriction_at_points: size overflow"@)
    } else if len != nelem * npoints {
        Some(
            "elem_restriction_at_points: offsets.len() "@ + decimal(len)
                + " != nelem * npoints_per_elem ("@ + decimal((nelem * npoints) as nat) + ")"@,
        )
    } else {
        None
    }
}

/// The resource is the host's.
pub open spec fn host_resource(resource: Seq<char>) -> bool {
    resource == "/cpu/self"@ || resource == "/cpu/self/ref"@
}

/// A context on the backend of a resource: "/cpu/self" and "/cpu/self/ref" give the backend in
/// host memory. No other resource is registered; use [`Reed::from_backend`] there.
pub fn init<T: Scalar>(resource: &str) -> (r: ReedResult<Reed<T, CpuBackend>>)
    ensures
        if host_resource(resource@) {
            r matches Ok(c) && c.source().called() == resource@
        } else {
            refused(
                r,
                ErrorKind::BackendNotSupported,
                "No backend registered for resource '"@ + resource@
                    + "'. Use Reed::from_backend() or enable the appropriate backend crate."@,
            )
        },
{
    let asked = resource.to_owned();
    if asked == "/cpu/self".to_owned() || asked == "/cpu/self/ref".to_owned() {
        return Ok(Reed::from_backend(Arc::new(CpuBackend::new(resource))));
    }
    Err(
        ReedError::BackendNotSupported(
            Message::new("No backend registered for resource '").text(resource).text(
                "'. Use Reed::from_backend() or enable the appropriate backend crate.",
            ).done(),
        ),
    )
}

} // verus!
