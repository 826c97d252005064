//! The library context, index conversions and quadrature functions.

use std::sync::Arc;

use reed::basis::BasisTrait;
use reed::cpu::assembly_dense::DenseLinearAssemblySlot;
use reed::cpu::backend::CpuBackend;
use reed::cpu::basis_lagrange::LagrangeBasis;
use reed::cpu::basis_nedelec::NedelecBasis;
use reed::cpu::basis_rt::RaviartThomasBasis;
use reed::cpu::basis_simplex::SimplexBasis;
use reed::cpu::elem_restriction::CpuElemRestriction;
use reed::cpu::elem_restriction_face::CpuFaceElemRestriction;
use reed::cpu::vector::CpuVector;
use reed::elem_restriction::ElemRestrictionTrait;
use reed::enums::{ElemTopology, EvalMode, QuadMode, TransposeMode};
use reed::error::{ReedError, ReedResult};
use reed::qfunction::{ClosureQFunction, QFunctionCategory, QFunctionField, QFunctionTrait};
use reed::reed::{ceed_int_offsets_to_i32, ceed_int_strides_to_i32, init, Backend, Reed};
use reed::scalar::{Real, Scalar};
use reed::vector::VectorTrait;

/// Double-precision numbers.
#[derive(Clone, Copy, Debug, PartialEq, PartialOrd)]
struct F64(f64);

impl Real for F64 {
    fn zero() -> Self {
        F64(0.0)
    }
    fn one() -> Self {
        F64(1.0)
    }
    fn from_int(n: i64) -> Self {
        F64(n as f64)
    }
    fn pi() -> Self {
        F64(std::f64::consts::PI)
    }
    fn epsilon() -> Self {
        F64(f64::EPSILON)
    }
    fn add(self, rhs: Self) -> Self {
        F64(self.0 + rhs.0)
    }
    fn sub(self, rhs: Self) -> Self {
        F64(self.0 - rhs.0)
    }
    fn mul(self, rhs: Self) -> Self {
        F64(self.0 * rhs.0)
    }
    fn div(self, rhs: Self) -> Self {
        F64(self.0 / rhs.0)
    }
    fn neg(self) -> Self {
        F64(-self.0)
    }
    fn abs(self) -> Self {
        F64(self.0.abs())
    }
    fn sqrt(self) -> Self {
        F64(self.0.sqrt())
    }
    fn cos(self) -> Self {
        F64(self.0.cos())
    }
    fn lt(self, rhs: Self) -> bool {
        self.0 < rhs.0
    }
    fn le(self, rhs: Self) -> bool {
        self.0 <= rhs.0
    }
    fn eq_value(self, rhs: Self) -> bool {
        self.0 == rhs.0
    }
    fn to_text(self) -> String {
        format!("{}", self.0)
    }
}


impl Scalar for F64 {
    type Work = F64;

    fn from_work(w: F64) -> Option<Self> {
        Some(w)
    }
    fn to_work(self) -> F64 {
        self
    }
}

fn wrap(x: &[f64]) -> Vec<F64> {
    x.iter().map(|v| F64(*v)).collect()
}

struct Host(Vec<F64>);

impl VectorTrait<F64> for Host {
    fn len(&self) -> usize {
        self.0.len()
    }
    fn as_slice(&self) -> &[F64] {
        &self.0
    }
    fn as_mut_slice(&mut self) -> &mut [F64] {
        &mut self.0
    }
    fn set_value(&mut self, v: F64) -> ReedResult<()> {
        self.0.fill(v);
        Ok(())
    }
    fn copy_from_slice(&mut self, data: &[F64]) -> ReedResult<()> {
        self.0.copy_from_slice(data);
        Ok(())
    }
}

struct HostBackend;

impl Backend<F64> for HostBackend {
    fn resource_name(&self) -> &str {
        "/cpu/self"
    }
    fn create_vector(&self, size: usize) -> ReedResult<Box<dyn VectorTrait<F64>>> {
        Ok(Box::new(Host(wrap(&vec![0.0; size]))))
    }
    fn create_elem_restriction(
        &self,
        nelem: usize,
        elemsize: usize,
        ncomp: usize,
        compstride: usize,
        lsize: usize,
        offsets: &[i32],
    ) -> ReedResult<Box<dyn ElemRestrictionTrait<F64>>> {
        let r = CpuElemRestriction::new_offset(nelem, elemsize, ncomp, compstride, lsize, offsets)?;
        Ok(Box::new(r))
    }
    fn create_strided_elem_restriction(
        &self,
        nelem: usize,
        elemsize: usize,
        ncomp: usize,
        lsize: usize,
        strides: [i32; 3],
    ) -> ReedResult<Box<dyn ElemRestrictionTrait<F64>>> {
        Ok(Box::new(CpuElemRestriction::new_strided(
            nelem, elemsize, ncomp, lsize, strides,
        )?))
    }
    fn create_face_elem_restriction(
        &self,
        num_faces: usize,
        num_dof_per_face: usize,
        num_dof_per_elem: usize,
        ncomp: usize,
        num_global_dof: usize,
        face_to_elem: Vec<(usize, usize)>,
        face_offsets: &[i32],
        elem_offsets: &[i32],
        face_to_elem_local: Vec<usize>,
    ) -> ReedResult<Box<dyn ElemRestrictionTrait<F64>>> {
        Ok(Box::new(CpuFaceElemRestriction::new(
            num_faces,
            num_dof_per_face,
            num_dof_per_elem,
            ncomp,
            num_global_dof,
            face_to_elem,
            face_offsets.to_vec(),
            elem_offsets.to_vec(),
            face_to_elem_local,
        )?))
    }
    fn create_basis_tensor_h1_lagrange(
        &self,
        dim: usize,
        ncomp: usize,
        p: usize,
        q: usize,
        qmode: QuadMode,
    ) -> ReedResult<Box<dyn BasisTrait<F64>>> {
        Ok(Box::new(LagrangeBasis::new(dim, ncomp, p, q, qmode)?))
    }
    fn create_basis_h1_simplex(
        &self,
        topo: ElemTopology,
        poly: usize,
        ncomp: usize,
        q: usize,
    ) -> ReedResult<Box<dyn BasisTrait<F64>>> {
        Ok(Box::new(SimplexBasis::new(topo, poly, ncomp, q)?))
    }
    fn create_basis_hcurl_nedelec(
        &self,
        topo: ElemTopology,
        p: usize,
        q: usize,
        _qmode: QuadMode,
    ) -> ReedResult<Box<dyn BasisTrait<F64>>> {
        Ok(Box::new(NedelecBasis::new(topo, p, q)?))
    }
    fn create_basis_hdiv_raviart_thomas(
        &self,
        topo: ElemTopology,
        p: usize,
        q: usize,
        _qmode: QuadMode,
    ) -> ReedResult<Box<dyn BasisTrait<F64>>> {
        Ok(Box::new(RaviartThomasBasis::new(topo, p, q)?))
    }
}

fn context() -> Reed<F64, HostBackend> {
    Reed::from_backend(Arc::new(HostBackend))
}

#[test]
fn indices_are_narrowed_or_refused() {
    assert_eq!(ceed_int_offsets_to_i32(&[0, -1, 7]).unwrap(), vec![0, -1, 7]);
    let e = ceed_int_offsets_to_i32(&[0, 1 << 40]).unwrap_err();
    assert!(matches!(e, ReedError::InvalidArgument(_)));
    assert!(e.message().starts_with("offset[1]=1099511627776 does not fit"));
    assert_eq!(ceed_int_strides_to_i32([1, 2, -3]).unwrap(), [1, 2, -3]);
    let e = ceed_int_strides_to_i32([1, i64::MIN, 2]).unwrap_err();
    assert!(e.message().starts_with("strides[1]=-9223372036854775808 does not fit"));
}

#[test]
fn unknown_resources_are_refused() {
    for name in ["/gpu/nowhere", "", "/cpu", "/cpu/self/", "/cpu/self/refs", "cpu/self"] {
        match init::<F64>(name) {
            Err(ReedError::BackendNotSupported(m)) => assert!(m.contains(&format!("'{name}'"))),
            _ => panic!("expected a refusal"),
        }
    }
}

#[test]
fn the_host_is_found_under_its_names() {
    for name in ["/cpu/self", "/cpu/self/ref"] {
        let ctx = init::<F64>(name).unwrap();
        assert_eq!(ctx.resource(), name);
        assert_eq!(ctx.vector(3).unwrap().as_slice(), &wrap(&[0.0; 3])[..]);
        let v = ctx.vector_from_slice(&wrap(&[1.0, 2.0])).unwrap();
        assert_eq!(v.as_slice(), &wrap(&[1.0, 2.0])[..]);
        let r = ctx.elem_restriction(2, 2, 1, 1, 3, &[0, 1, 1, 2]).unwrap();
        let mut w = wrap(&[0.0; 4]);
        r.apply(TransposeMode::NoTranspose, &wrap(&[5.0, 6.0, 7.0]), &mut w).unwrap();
        assert_eq!(w, wrap(&[5.0, 6.0, 6.0, 7.0]));
        let r = ctx.strided_elem_restriction(2, 2, 1, 4, [1, 4, 2]).unwrap();
        assert_eq!((r.num_elements(), r.local_size()), (2, 4));
        let b = ctx.basis_tensor_h1_lagrange(2, 1, 2, 3, QuadMode::Gauss).unwrap();
        assert_eq!((b.num_dof(), b.num_qpoints()), (4, 9));
        let b = ctx.basis_h1_simplex(ElemTopology::Tet, 2, 1, 4).unwrap();
        assert_eq!(b.num_dof(), 10);
        let b = ctx.basis_hcurl_nedelec(ElemTopology::Triangle, 2, 3, QuadMode::Gauss).unwrap();
        assert_eq!(b.num_dof(), 8);
        let b = ctx.basis_hdiv_raviart_thomas(ElemTopology::Tet, 1, 4, QuadMode::Gauss).unwrap();
        assert_eq!(b.num_dof(), 20);
    }
}

#[test]
fn the_host_restricts_to_faces() {
    let ctx = init::<F64>("/cpu/self").unwrap();
    // one element of three nodes, its last two on the face
    let r = ctx
        .face_elem_restriction(1, 2, 3, 1, 3, vec![(0, 0)], &[1, 2], &[0, 1, 2], vec![1, 2])
        .unwrap();
    let direct = CpuFaceElemRestriction::<F64>::new(
        1,
        2,
        3,
        1,
        3,
        vec![(0, 0)],
        vec![1, 2],
        vec![0, 1, 2],
        vec![1, 2],
    )
    .unwrap();
    assert_eq!(r.local_size(), direct.local_size());
    let u = wrap(&[4.0, 5.0, 6.0]);
    let mut v = wrap(&vec![0.0; r.local_size()]);
    let mut w = v.clone();
    r.apply(TransposeMode::NoTranspose, &u, &mut v).unwrap();
    direct.apply(TransposeMode::NoTranspose, &u, &mut w).unwrap();
    assert_eq!(v, w);
}

#[test]
fn the_host_passes_refusals_on() {
    let ctx = init::<F64>("/cpu/self").unwrap();
    assert!(matches!(
        ctx.elem_restriction(2, 2, 1, 1, 3, &[0, 1, 1]),
        Err(ReedError::InvalidArgument(_))
    ));
    assert!(matches!(
        ctx.basis_tensor_h1_lagrange(4, 1, 2, 2, QuadMode::Gauss),
        Err(ReedError::Basis(_))
    ));
    assert!(matches!(
        ctx.basis_h1_simplex(ElemTopology::Triangle, 4, 1, 3),
        Err(ReedError::Basis(_))
    ));
    assert!(matches!(
        ctx.basis_hcurl_nedelec(ElemTopology::Line, 1, 2, QuadMode::Gauss),
        Err(ReedError::Basis(_))
    ));
    assert!(matches!(
        ctx.basis_hdiv_raviart_thomas(ElemTopology::Tet, 7, 4, QuadMode::Gauss),
        Err(ReedError::Basis(_))
    ));
}

#[test]
fn the_host_refuses_sizes_out_of_range() {
    let ctx = init::<F64>("/cpu/self").unwrap();
    let e = match ctx.elem_restriction(usize::MAX, 2, 1, 1, 3, &[0]) {
        Err(e) => e,
        Ok(_) => panic!("expected a refusal"),
    };
    assert!(matches!(e, ReedError::InvalidArgument(_)));
    assert_eq!(e.message(), "create_elem_restriction: size overflow");
    let e = match ctx.basis_tensor_h1_lagrange(3, 1, 1 << 40, 2, QuadMode::Gauss) {
        Err(e) => e,
        Ok(_) => panic!("expected a refusal"),
    };
    assert_eq!(e.message(), "create_basis_tensor_h1_lagrange: size overflow");
}

#[test]
fn a_host_vector_holds_its_numbers() {
    let mut v = CpuVector::<F64>::new(2);
    assert_eq!((v.len(), v.as_slice()), (2, &wrap(&[0.0, 0.0])[..]));
    v.set_value(F64(3.0)).unwrap();
    assert_eq!(v.as_slice(), &wrap(&[3.0, 3.0])[..]);
    v.as_mut_slice()[1] = F64(4.0);
    assert_eq!(v.as_slice(), &wrap(&[3.0, 4.0])[..]);
    v.copy_from_slice(&wrap(&[1.0, 2.0])).unwrap();
    let e = v.copy_from_slice(&wrap(&[9.0; 3])).unwrap_err();
    assert!(matches!(e, ReedError::InvalidArgument(_)));
    assert_eq!(e.message(), "vector length 2 != data length 3");
    assert_eq!(v.as_slice(), &wrap(&[1.0, 2.0])[..]);
    assert_eq!(CpuVector::from_vec(wrap(&[7.0])).as_slice(), &wrap(&[7.0])[..]);
}

/// A backend that offers what every backend must, and no more.
struct PlainBackend(CpuBackend);

impl Backend<F64> for PlainBackend {
    fn resource_name(&self) -> &str {
        "/cpu/plain"
    }
    fn create_vector(&self, size: usize) -> ReedResult<Box<dyn VectorTrait<F64>>> {
        self.0.create_vector(size)
    }
    fn create_elem_restriction(
        &self,
        nelem: usize,
        elemsize: usize,
        ncomp: usize,
        compstride: usize,
        lsize: usize,
        offsets: &[i32],
    ) -> ReedResult<Box<dyn ElemRestrictionTrait<F64>>> {
        self.0.create_elem_restriction(nelem, elemsize, ncomp, compstride, lsize, offsets)
    }
    fn create_strided_elem_restriction(
        &self,
        nelem: usize,
        elemsize: usize,
        ncomp: usize,
        lsize: usize,
        strides: [i32; 3],
    ) -> ReedResult<Box<dyn ElemRestrictionTrait<F64>>> {
        self.0.create_strided_elem_restriction(nelem, elemsize, ncomp, lsize, strides)
    }
    fn create_basis_tensor_h1_lagrange(
        &self,
        dim: usize,
        ncomp: usize,
        p: usize,
        q: usize,
        qmode: QuadMode,
    ) -> ReedResult<Box<dyn BasisTrait<F64>>> {
        self.0.create_basis_tensor_h1_lagrange(dim, ncomp, p, q, qmode)
    }
    fn create_basis_h1_simplex(
        &self,
        topo: ElemTopology,
        poly: usize,
        ncomp: usize,
        q: usize,
    ) -> ReedResult<Box<dyn BasisTrait<F64>>> {
        self.0.create_basis_h1_simplex(topo, poly, ncomp, q)
    }
}

#[test]
fn a_backend_refuses_what_it_does_not_offer() {
    let ctx = Reed::from_backend(Arc::new(PlainBackend(CpuBackend::new("/cpu/plain"))));
    assert_eq!(ctx.resource(), "/cpu/plain");
    assert_eq!(ctx.vector(1).unwrap().len(), 1);
    assert!(matches!(
        ctx.face_elem_restriction(1, 2, 3, 1, 3, vec![(0, 0)], &[1, 2], &[0, 1, 2], vec![1, 2]),
        Err(ReedError::BackendNotSupported(_))
    ));
    assert!(matches!(
        ctx.basis_hcurl_nedelec(ElemTopology::Triangle, 1, 3, QuadMode::Gauss),
        Err(ReedError::BackendNotSupported(_))
    ));
    assert!(matches!(
        ctx.basis_hdiv_raviart_thomas(ElemTopology::Triangle, 0, 3, QuadMode::Gauss),
        Err(ReedError::BackendNotSupported(_))
    ));
}

#[test]
fn a_context_hands_requests_to_its_backend() {
    let ctx = context();
    assert_eq!(ctx.resource(), "/cpu/self");
    assert_eq!(ctx.vector(3).unwrap().len(), 3);
    let v = ctx.vector_from_slice(&wrap(&[1.0, 2.0])).unwrap();
    assert_eq!(v.as_slice(), &wrap(&[1.0, 2.0])[..]);
    let r = ctx.elem_restriction(2, 2, 1, 1, 3, &[0, 1, 1, 2]).unwrap();
    assert_eq!((r.num_elements(), r.num_global_dof()), (2, 3));
    let r = ctx.strided_elem_restriction(2, 2, 1, 4, [1, 4, 2]).unwrap();
    assert_eq!(r.local_size(), 4);
    let b = ctx.basis_tensor_h1_lagrange(2, 1, 2, 3, QuadMode::Gauss).unwrap();
    assert_eq!((b.num_dof(), b.num_qpoints()), (4, 9));
    let b = ctx.basis_h1_simplex(ElemTopology::Tet, 2, 1, 4).unwrap();
    assert_eq!(b.num_dof(), 10);
    let b = ctx.basis_hcurl_nedelec(ElemTopology::Triangle, 2, 3, QuadMode::Gauss).unwrap();
    assert_eq!(b.num_dof(), 8);
    let b = ctx.basis_hdiv_raviart_thomas(ElemTopology::Tet, 1, 4, QuadMode::Gauss).unwrap();
    assert_eq!(b.num_dof(), 20);
}

#[test]
fn wide_offsets_reach_the_backend_narrowed() {
    let ctx = context();
    let r = ctx.elem_restriction_ceed_int_offsets(1, 2, 1, 1, 2, &[1, 0]).unwrap();
    let mut v = wrap(&[0.0, 0.0]);
    r.apply(TransposeMode::NoTranspose, &wrap(&[5.0, 6.0]), &mut v).unwrap();
    assert_eq!(v, wrap(&[6.0, 5.0]));
    assert!(ctx.elem_restriction_ceed_int_offsets(1, 1, 1, 1, 2, &[1 << 33]).is_err());
    assert!(ctx
        .strided_elem_restriction_ceed_int_strides(1, 2, 1, 2, [1, 2, 1 << 33])
        .is_err());
}

#[test]
fn points_need_one_offset_each() {
    let ctx = context();
    assert!(ctx.elem_restriction_at_points(2, 2, 1, 1, 4, &[0, 1, 2, 3]).is_ok());
    assert!(matches!(
        ctx.elem_restriction_at_points(2, 2, 1, 1, 4, &[0, 1, 2]),
        Err(ReedError::InvalidArgument(_))
    ));
}

#[test]
fn a_restriction_refuses_wrong_offsets() {
    assert!(matches!(
        CpuElemRestriction::<F64>::new_offset(2, 2, 1, 1, 3, &[0, 1, 1]),
        Err(ReedError::InvalidArgument(_))
    ));
    for offset in [-1, 1] {
        let r = CpuElemRestriction::<F64>::new_offset(1, 1, 1, 1, 1, &[offset]).unwrap();
        let mut v = wrap(&[0.0]);
        assert!(matches!(
            r.apply(TransposeMode::NoTranspose, &wrap(&[1.0]), &mut v),
            Err(ReedError::ElemRestriction(_))
        ));
        assert!(matches!(
            r.apply(TransposeMode::NoTranspose, &wrap(&[1.0, 2.0]), &mut v),
            Err(ReedError::ElemRestriction(_))
        ));
    }
}

#[test]
fn a_basis_refuses_parameters_and_lengths() {
    assert!(matches!(
        LagrangeBasis::<F64>::new(4, 1, 2, 2, QuadMode::Gauss),
        Err(ReedError::Basis(_))
    ));
    assert!(matches!(
        SimplexBasis::<F64>::new(ElemTopology::Triangle, 4, 1, 3),
        Err(ReedError::Basis(_))
    ));
    assert!(matches!(
        SimplexBasis::<F64>::new(ElemTopology::Triangle, 1, 1, 5),
        Err(ReedError::Basis(_))
    ));
    let b = LagrangeBasis::<F64>::new(1, 1, 2, 2, QuadMode::Gauss).unwrap();
    let mut v = wrap(&[0.0; 2]);
    assert!(matches!(
        b.apply(1, false, EvalMode::Interp, &wrap(&[0.0; 3]), &mut v),
        Err(ReedError::Basis(_))
    ));
}

#[test]
fn a_closure_is_a_quadrature_function() {
    let field = |name: &str| QFunctionField {
        name: name.to_string(),
        num_comp: 1,
        eval_mode: EvalMode::Interp,
    };
    let f = ClosureQFunction::new_with_category(
        vec![field("u")],
        vec![field("v")],
        0,
        QFunctionCategory::Exterior,
        |_ctx: &[u8], q: usize, inputs: &Vec<Vec<F64>>, mut outputs: Vec<Vec<F64>>| {
            for i in 0..q {
                outputs[0][i] = F64(2.0 * inputs[0][i].0);
            }
            (Ok(()), outputs)
        },
    );
    assert_eq!(f.context_byte_len(), 0);
    assert_eq!(f.inputs().len(), 1);
    assert_eq!(f.q_function_category(), QFunctionCategory::Exterior);
    let mut out = vec![wrap(&[0.0, 0.0])];
    f.apply(&[], 2, &vec![wrap(&[1.0, 3.0])], &mut out).unwrap();
    assert_eq!(out[0], wrap(&[2.0, 6.0]));
}

#[test]
fn a_dense_slot_starts_at_zero() {
    let s = DenseLinearAssemblySlot::<F64>::new_symbolic(2).unwrap();
    assert_eq!(s.n, 2);
    assert_eq!(s.a.len(), 4);
    assert!(!s.numeric_done);
}

/// A function that keeps what every quadrature function has.
struct Doubling;

impl QFunctionTrait<F64> for Doubling {
    fn inputs(&self) -> &[QFunctionField] {
        &[]
    }
    fn outputs(&self) -> &[QFunctionField] {
        &[]
    }
    fn apply(
        &self,
        _ctx: &[u8],
        _q: usize,
        inputs: &Vec<Vec<F64>>,
        outputs: &mut Vec<Vec<F64>>,
    ) -> ReedResult<()> {
        outputs[0][0] = F64(2.0 * inputs[0][0].0);
        Ok(())
    }
}

#[test]
fn a_quadrature_function_has_defaults() {
    let f = Doubling;
    assert_eq!(f.context_byte_len(), 0);
    assert_eq!(f.q_function_category(), QFunctionCategory::Interior);
    assert!(!f.supports_operator_transpose());
    assert!(f.gallery_name().is_none());
    let mut back = vec![wrap(&[1.0])];
    let cotangents = vec![wrap(&[3.0])];
    for r in [
        f.apply_operator_transpose(&[], 1, &cotangents, &mut back),
        f.apply_operator_transpose_with_primal(&[], 1, &cotangents, &cotangents, &mut back),
    ] {
        assert!(matches!(r, Err(ReedError::QFunction(_))));
    }
    assert_eq!(back[0], wrap(&[1.0]));
}

#[test]
fn patterns_and_faces_come_through_the_context() {
    let ctx = init::<F64>("/cpu/self").unwrap();
    let r = ctx.elem_restriction(2, 2, 1, 1, 3, &[0, 1, 1, 2]).unwrap();
    let p = r.assembled_csr_pattern().unwrap();
    assert_eq!(p.row_ptr, [0, 2, 5, 7]);
    assert_eq!(p.col_ind, [0, 1, 0, 1, 2, 1, 2]);
    let r = ctx.strided_elem_restriction(2, 2, 1, 4, [1, 4, 2]).unwrap();
    assert!(matches!(r.assembled_csr_pattern(), Err(ReedError::ElemRestriction(_))));
    let r = ctx
        .face_elem_restriction(1, 2, 3, 1, 3, vec![(0, 0)], &[1, 2], &[0, 1, 2], vec![1, 2])
        .unwrap();
    let e = r.assembled_csr_pattern().unwrap_err();
    assert_eq!(e.message(), "assembled_csr_pattern is not implemented for this restriction type");
    let b = ctx.basis_h1_simplex(ElemTopology::Triangle, 1, 1, 3).unwrap();
    let w = b.face_q_weights(0).unwrap();
    let x = b.face_q_ref(0).unwrap();
    assert!(!w.is_empty());
    assert_eq!(x.len() % w.len(), 0);
    assert!(b.face_q_weights(3).is_none());
    assert!(b.face_q_ref(3).is_none());
    let b = ctx.basis_tensor_h1_lagrange(2, 1, 2, 3, QuadMode::Gauss).unwrap();
    assert!(b.face_q_weights(0).is_none());
    assert!(b.face_q_ref(0).is_none());
}
