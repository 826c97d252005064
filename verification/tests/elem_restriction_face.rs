//! Restrictions of global vectors to element faces.

use reed::cpu::elem_restriction_face::CpuFaceElemRestriction;
use reed::csr::CsrPattern;
use reed::elem_restriction::{BoxedClone, ElemRestrictionTrait};
use reed::enums::TransposeMode;
use reed::error::ReedResult;
use reed::scalar::Real;
use reed::types::CeedInt;

/// Double-precision numbers.
#[derive(Clone, Copy, Debug, PartialEq, PartialOrd)]
struct F64(f64);

impl Real for F64 {
    fn zero() -> Self {
        F64(0.0)
    }
    fn one() -> Self {
        F64(1.0)
    }
    fn from_int(n: i64) -> Self {
        F64(n as f64)
    }
    fn pi() -> Self {
        F64(std::f64::consts::PI)
    }
    fn epsilon() -> Self {
        F64(f64::EPSILON)
    }
    fn add(self, rhs: Self) -> Self {
        F64(self.0 + rhs.0)
    }
    fn sub(self, rhs: Self) -> Self {
        F64(self.0 - rhs.0)
    }
    fn mul(self, rhs: Self) -> Self {
        F64(self.0 * rhs.0)
    }
    fn div(self, rhs: Self) -> Self {
        F64(self.0 / rhs.0)
    }
    fn neg(self) -> Self {
        F64(-self.0)
    }
    fn abs(self) -> Self {
        F64(self.0.abs())
    }
    fn sqrt(self) -> Self {
        F64(self.0.sqrt())
    }
    fn cos(self) -> Self {
        F64(self.0.cos())
    }
    fn lt(self, rhs: Self) -> bool {
        self.0 < rhs.0
    }
    fn le(self, rhs: Self) -> bool {
        self.0 <= rhs.0
    }
    fn eq_value(self, rhs: Self) -> bool {
        self.0 == rhs.0
    }
    fn to_text(self) -> String {
        format!("{}", self.0)
    }
}

fn wrap(x: &[f64]) -> Vec<F64> {
    x.iter().map(|v| F64(*v)).collect()
}

fn plain(x: &[F64]) -> Vec<f64> {
    x.iter().map(|v| v.0).collect()
}

/// A restriction over plain numbers.
struct Plain<E>(E);

impl<E: ElemRestrictionTrait<F64> + ?Sized> Plain<Box<E>> {
    fn num_elements(&self) -> usize {
        self.0.num_elements()
    }
    fn num_dof_per_elem(&self) -> usize {
        self.0.num_dof_per_elem()
    }
    fn num_global_dof(&self) -> usize {
        self.0.num_global_dof()
    }
    fn num_comp(&self) -> usize {
        self.0.num_comp()
    }
    fn local_size(&self) -> usize {
        self.0.local_size()
    }
    fn assembled_csr_pattern(&self) -> ReedResult<CsrPattern> {
        self.0.assembled_csr_pattern()
    }
    fn apply(&self, mode: TransposeMode, u: &[f64], v: &mut [f64]) -> ReedResult<()> {
        let mut w = wrap(v);
        let r = self.0.apply(mode, &wrap(u), &mut w);
        v.copy_from_slice(&plain(&w));
        r
    }
}

#[allow(clippy::too_many_arguments)]
fn face_restriction(
    num_faces: usize,
    num_dof_per_face: usize,
    num_dof_per_elem: usize,
    ncomp: usize,
    num_global_dof: usize,
    face_to_elem: Vec<(usize, usize)>,
    face_offsets: Vec<CeedInt>,
    elem_offsets: Vec<CeedInt>,
    face_to_elem_local: Vec<usize>,
) -> ReedResult<Plain<Box<CpuFaceElemRestriction<F64>>>> {
    CpuFaceElemRestriction::new(
        num_faces,
        num_dof_per_face,
        num_dof_per_elem,
        ncomp,
        num_global_dof,
        face_to_elem,
        face_offsets,
        elem_offsets,
        face_to_elem_local,
    )
    .map(|r| Plain(Box::new(r)))
}

/// Two faces, each with 2 DOFs, belonging to one 4-DOF element, 1 component.
///
/// Element e0 has DOFs at global indices [10, 20, 30, 40].
/// Face f0 maps to e0, local face 0, with local positions 0,2 (global 10,30).
/// Face f1 maps to e0, local face 1, with local positions 1,3 (global 20,40).
fn simple_two_face_restriction() -> Plain<Box<CpuFaceElemRestriction<F64>>> {
    let num_faces = 2;
    let num_dof_per_face = 2;
    let num_dof_per_elem = 4;
    let ncomp = 1;
    let num_global_dof = 5;

    let face_to_elem = vec![(0, 0), (0, 1)];
    // face_offsets: face 0 DOFs -> global 10,30; face 1 DOFs -> global 20,40
    let face_offsets: Vec<CeedInt> = vec![10, 30, 20, 40];
    // elem_offsets: element 0 DOFs -> global 10,20,30,40
    let elem_offsets: Vec<CeedInt> = vec![10, 20, 30, 40];
    // face_to_elem_local: face 0 local positions -> elem positions 0,2;
    // face 1 local positions -> elem positions 1,3
    let face_to_elem_local = vec![0, 2, 1, 3];

    face_restriction(
        num_faces,
        num_dof_per_face,
        num_dof_per_elem,
        ncomp,
        num_global_dof,
        face_to_elem,
        face_offsets,
        elem_offsets,
        face_to_elem_local,
    )
    .unwrap()
}

#[test]
fn test_num_elements_returns_num_faces() {
    let r = simple_two_face_restriction();
    assert_eq!(r.num_elements(), 2);
    assert_eq!(r.num_dof_per_elem(), 2);
    assert_eq!(r.num_global_dof(), 5);
    assert_eq!(r.num_comp(), 1);
}

#[test]
fn test_face_restriction_gather_scatter_roundtrip() {
    let num_faces = 2;
    let num_dof_per_face = 2;
    let num_dof_per_elem = 4;
    let ncomp = 1;
    let num_global_dof = 4;

    let face_to_elem = vec![(0, 0), (0, 1)];
    let face_offsets: Vec<CeedInt> = vec![0, 2, 1, 3];
    let elem_offsets: Vec<CeedInt> = vec![0, 1, 2, 3];
    let face_to_elem_local = vec![0, 2, 1, 3];

    let r = face_restriction(
        num_faces,
        num_dof_per_face,
        num_dof_per_elem,
        ncomp,
        num_global_dof,
        face_to_elem,
        face_offsets,
        elem_offsets,
        face_to_elem_local,
    )
    .unwrap();

    // Gather: global -> face-local
    let u = vec![10.0, 20.0, 30.0, 40.0];
    let mut v = vec![0.0; 4];
    r.apply(TransposeMode::NoTranspose, &u, &mut v)
        .unwrap();
    // face 0: global[0]=10, global[2]=30 -> [10, 30]
    // face 1: global[1]=20, global[3]=40 -> [20, 40]
    assert_eq!(v, vec![10.0, 30.0, 20.0, 40.0]);

    // Scatter: face-local -> global (additive)
    let mut gathered = vec![0.0; 4];
    r.apply(TransposeMode::Transpose, &v, &mut gathered)
        .unwrap();
    // With face_to_elem_local mapping face 0 loc 0->elem loc 0, face 0 loc 1->elem loc 2
    // elem_offsets gives global indices directly
    assert_eq!(gathered, vec![10.0, 20.0, 30.0, 40.0]);
}

#[test]
fn test_face_restriction_ncomp2() {
    let num_faces = 1;
    let num_dof_per_face = 2;
    let num_dof_per_elem = 4;
    let ncomp = 2;
    let num_global_dof = 8;

    // One face belonging to element 0
    let face_to_elem = vec![(0, 0)];
    // face_offsets: length = 1 * 2 * 2 = 4
    let face_offsets: Vec<CeedInt> = vec![0, 2, 4, 6];
    // elem_offsets: length = 1 * 2 * 4 = 8
    let elem_offsets: Vec<CeedInt> = vec![0, 1, 2, 3, 4, 5, 6, 7];
    // face_to_elem_local: length = 1 * 2 = 2
    let face_to_elem_local = vec![0, 3];

    let r = face_restriction(
        num_faces,
        num_dof_per_face,
        num_dof_per_elem,
        ncomp,
        num_global_dof,
        face_to_elem,
        face_offsets,
        elem_offsets,
        face_to_elem_local,
    )
    .unwrap();

    assert_eq!(r.num_elements(), 1);
    assert_eq!(r.num_dof_per_elem(), 2);
    assert_eq!(r.num_comp(), 2);
    assert_eq!(r.local_size(), 4);

    // Gather
    let u: Vec<f64> = (0..8).map(|i| (i * 10) as f64).collect();
    // u = [0, 10, 20, 30, 40, 50, 60, 70]
    let mut v = vec![0.0; 4];
    r.apply(TransposeMode::NoTranspose, &u, &mut v).unwrap();
    // face_offsets = [0, 2, 4, 6]
    // v[0] = u[0] = 0, v[1] = u[2] = 20, v[2] = u[4] = 40, v[3] = u[6] = 60
    assert_eq!(v, vec![0.0, 20.0, 40.0, 60.0]);

    // Scatter
    let mut gathered = vec![0.0; 8];
    r.apply(TransposeMode::Transpose, &v, &mut gathered)
        .unwrap();
    // face 0, elem 0
    // comp 0, k=0: elocal=face_to_elem_local[0+0]=0, g=elem_offsets[0+0*4+0]=0, gathered[0]+=v[0]=0
    // comp 0, k=1: elocal=face_to_elem_local[0+1]=3, g=elem_offsets[0+0*4+3]=3, gathered[3]+=v[1]=20
    // comp 1, k=0: elocal=face_to_elem_local[0+0]=0, g=elem_offsets[0+1*4+0]=4, gathered[4]+=v[2]=40
    // comp 1, k=1: elocal=face_to_elem_local[0+1]=3, g=elem_offsets[0+1*4+3]=7, gathered[7]+=v[3]=60
    assert_eq!(gathered, vec![0.0, 0.0, 0.0, 20.0, 40.0, 0.0, 0.0, 60.0]);
}

#[test]
fn test_boxed_clone_works() {
    let r = simple_two_face_restriction();
    let clone = Plain(r.0.boxed_clone().unwrap());
    assert_eq!(clone.num_elements(), r.num_elements());
    assert_eq!(clone.num_dof_per_elem(), r.num_dof_per_elem());
    assert_eq!(clone.num_global_dof(), r.num_global_dof());
    assert_eq!(clone.num_comp(), r.num_comp());
}

#[test]
fn test_assembled_csr_pattern_returns_err() {
    let r = simple_two_face_restriction();
    assert!(r.assembled_csr_pattern().is_err());
}

#[test]
fn test_constructor_validation() {
    // Wrong face_offsets length
    let result = face_restriction(
        2, 2, 4, 1, 5,
        vec![(0, 0), (0, 1)],
        vec![0, 1, 2], // wrong: should be length 4
        vec![0, 1, 2, 3],
        vec![0, 2, 1, 3],
    );
    assert!(result.is_err());

    // Wrong face_to_elem_local length
    let result = face_restriction(
        2, 2, 4, 1, 5,
        vec![(0, 0), (0, 1)],
        vec![0, 1, 2, 3],
        vec![0, 1, 2, 3],
        vec![0, 2, 1], // wrong: should be length 4
    );
    assert!(result.is_err());

    // Wrong face_to_elem length
    let result = face_restriction(
        2, 2, 4, 1, 5,
        vec![(0, 0)], // wrong: should be length 2
        vec![0, 1, 2, 3],
        vec![0, 1, 2, 3],
        vec![0, 2, 1, 3],
    );
    assert!(result.is_err());
}
