//! Edge elements on triangles and tetrahedra.

use reed::basis::BasisTrait;
use reed::cpu::basis_nedelec::NedelecBasis;
use reed::cpu::vector_shapes as table;
use reed::enums::{ElemTopology, EvalMode};
use reed::error::ReedResult;
use reed::scalar::{Real, Scalar};

/// Double-precision numbers.
#[derive(Clone, Copy, Debug, PartialEq, PartialOrd)]
struct F64(f64);

impl Real for F64 {
    fn zero() -> Self {
        F64(0.0)
    }
    fn one() -> Self {
        F64(1.0)
    }
    fn from_int(n: i64) -> Self {
        F64(n as f64)
    }
    fn pi() -> Self {
        F64(std::f64::consts::PI)
    }
    fn epsilon() -> Self {
        F64(f64::EPSILON)
    }
    fn add(self, rhs: Self) -> Self {
        F64(self.0 + rhs.0)
    }
    fn sub(self, rhs: Self) -> Self {
        F64(self.0 - rhs.0)
    }
    fn mul(self, rhs: Self) -> Self {
        F64(self.0 * rhs.0)
    }
    fn div(self, rhs: Self) -> Self {
        F64(self.0 / rhs.0)
    }
    fn neg(self) -> Self {
        F64(-self.0)
    }
    fn abs(self) -> Self {
        F64(self.0.abs())
    }
    fn sqrt(self) -> Self {
        F64(self.0.sqrt())
    }
    fn cos(self) -> Self {
        F64(self.0.cos())
    }
    fn lt(self, rhs: Self) -> bool {
        self.0 < rhs.0
    }
    fn le(self, rhs: Self) -> bool {
        self.0 <= rhs.0
    }
    fn eq_value(self, rhs: Self) -> bool {
        self.0 == rhs.0
    }
    fn to_text(self) -> String {
        format!("{}", self.0)
    }
}


impl Scalar for F64 {
    type Work = F64;

    fn from_work(w: F64) -> Option<Self> {
        Some(w)
    }
    fn to_work(self) -> F64 {
        self
    }
}

fn wrap(x: &[f64]) -> Vec<F64> {
    x.iter().map(|v| F64(*v)).collect()
}

fn plain(x: &[F64]) -> Vec<f64> {
    x.iter().map(|v| v.0).collect()
}

/// A basis over plain numbers.
struct Plain<B>(B);

impl<B: BasisTrait<F64>> Plain<B> {
    fn dim(&self) -> usize {
        self.0.dim()
    }
    fn num_dof(&self) -> usize {
        self.0.num_dof()
    }
    fn num_qpoints(&self) -> usize {
        self.0.num_qpoints()
    }
    fn num_comp(&self) -> usize {
        self.0.num_comp()
    }
    fn q_weights(&self) -> Vec<f64> {
        plain(self.0.q_weights())
    }
    fn q_ref(&self) -> Vec<f64> {
        plain(self.0.q_ref())
    }
    fn apply(
        &self,
        num_elem: usize,
        transpose: bool,
        mode: EvalMode,
        u: &[f64],
        v: &mut [f64],
    ) -> ReedResult<()> {
        let mut w = wrap(v);
        let r = self.0.apply(num_elem, transpose, mode, &wrap(u), &mut w);
        for (x, y) in v.iter_mut().zip(w.iter()) {
            *x = y.0;
        }
        r
    }
}

fn nedelec(topo: ElemTopology, p: usize, q: usize) -> ReedResult<Plain<NedelecBasis<F64>>> {
    NedelecBasis::new(topo, p, q).map(Plain)
}

impl Plain<NedelecBasis<F64>> {
    fn interp(&self) -> Vec<f64> {
        plain(self.0.interp_data())
    }
    fn curl_matrix(&self) -> Vec<f64> {
        plain(self.0.curl_data())
    }
}

fn tri_nedelec_p1(x: f64, y: f64) -> (Vec<f64>, Vec<f64>) {
    let (a, b) = table::tri_nedelec_p1(F64(x), F64(y));
    (plain(&a), plain(&b))
}

fn tri_nedelec_p2(x: f64, y: f64) -> (Vec<f64>, Vec<f64>) {
    let (a, b) = table::tri_nedelec_p2(F64(x), F64(y));
    (plain(&a), plain(&b))
}

fn tri_nedelec_p3(x: f64, y: f64) -> (Vec<f64>, Vec<f64>) {
    let (a, b) = table::tri_nedelec_p3(F64(x), F64(y));
    (plain(&a), plain(&b))
}

fn tet_nedelec_p1(x: f64, y: f64, z: f64) -> (Vec<f64>, Vec<f64>) {
    let (a, b) = table::tet_nedelec_p1(F64(x), F64(y), F64(z));
    (plain(&a), plain(&b))
}

fn tet_nedelec_p2(x: f64, y: f64, z: f64) -> (Vec<f64>, Vec<f64>) {
    let (a, b) = table::tet_nedelec_p2(F64(x), F64(y), F64(z));
    (plain(&a), plain(&b))
}

const TOL: f64 = 1e-12;

// ── shape function tests ───────────────────────────────────────────────

#[test]
fn tri_nedelec_p1_curl_is_constant_2() {
    // At any point, all edge curl values should be 2.
    for &(x, y) in &[(0.1, 0.2), (0.5, 0.3), (1.0 / 3.0, 1.0 / 3.0)] {
        let (_phi, curl) = tri_nedelec_p1(x, y);
        for dof in 0..3 {
            assert!(
                (curl[dof] - 2.0).abs() < TOL,
                "tri curl[dof={}] = {} at ({},{})",
                dof,
                curl[dof],
                x,
                y
            );
        }
    }
}

#[test]
fn tet_nedelec_p1_curl_constant() {
    // Curl values are constant (independent of x,y,z).
    let (_phi1, curl1) = tet_nedelec_p1(0.1, 0.2, 0.3);
    let (_phi2, curl2) = tet_nedelec_p1(0.5, 0.1, 0.1);
    for dof in 0..6 {
        for d in 0..3 {
            assert!(
                (curl1[dof * 3 + d] - curl2[dof * 3 + d]).abs() < TOL,
                "tet curl not constant for dof={} d={}",
                dof,
                d
            );
        }
    }
}

// ── basis construction tests ───────────────────────────────────────────

#[test]
fn construct_tri_nedelec_p1() {
    let basis = nedelec(ElemTopology::Triangle, 1, 3).unwrap();
    assert_eq!(basis.dim(), 2);
    assert_eq!(basis.num_dof(), 3);
    assert_eq!(basis.num_qpoints(), 3);
    assert_eq!(basis.num_comp(), 2);
    assert_eq!(basis.q_weights().len(), 3);
    assert_eq!(basis.q_ref().len(), 6); // 3 qpts × 2
}

#[test]
fn construct_tet_nedelec_p1() {
    let basis = nedelec(ElemTopology::Tet, 1, 4).unwrap();
    assert_eq!(basis.dim(), 3);
    assert_eq!(basis.num_dof(), 6);
    assert_eq!(basis.num_qpoints(), 4);
    assert_eq!(basis.num_comp(), 3);
    assert_eq!(basis.q_weights().len(), 4);
    assert_eq!(basis.q_ref().len(), 12); // 4 qpts × 3
}

#[test]
fn basis_nedelec_reject_invalid_p() {
    // Triangle: p=1, p=2, p=3 are OK; higher p rejected
    assert!(nedelec(ElemTopology::Triangle, 1, 3).is_ok());
    assert!(nedelec(ElemTopology::Triangle, 2, 3).is_ok());
    assert!(nedelec(ElemTopology::Triangle, 3, 3).is_ok());
    assert!(nedelec(ElemTopology::Triangle, 4, 3).is_err());
    // Tet: p=1, p=2 are OK; higher p rejected
    assert!(nedelec(ElemTopology::Tet, 1, 4).is_ok());
    assert!(nedelec(ElemTopology::Tet, 2, 4).is_ok());
    assert!(nedelec(ElemTopology::Tet, 3, 4).is_err());
}

#[test]
fn basis_nedelec_reject_unsupported_topo() {
    assert!(nedelec(ElemTopology::Line, 1, 2).is_err());
}

// ── apply: Interp mode ─────────────────────────────────────────────────

#[test]
fn tri_nedelec_interp_forward_size() {
    let basis = nedelec(ElemTopology::Triangle, 1, 3).unwrap();
    let nelem = 2;
    let ndof = 3;
    let nqpts = 3;
    let dim = 2;
    let u = vec![0.0f64; nelem * ndof * dim];
    let mut v = vec![0.0f64; nelem * nqpts * dim];
    basis
        .apply(nelem, false, EvalMode::Interp, &u, &mut v)
        .unwrap();
}

#[test]
fn tri_nedelec_interp_transpose_size() {
    let basis = nedelec(ElemTopology::Triangle, 1, 3).unwrap();
    let nelem = 2;
    let ndof = 3;
    let nqpts = 3;
    let dim = 2;
    let u = vec![0.0f64; nelem * nqpts * dim];
    let mut v = vec![0.0f64; nelem * ndof * dim];
    basis
        .apply(nelem, true, EvalMode::Interp, &u, &mut v)
        .unwrap();
}

// ── apply: HCurl mode ──────────────────────────────────────────────────

#[test]
fn tri_nedelec_hcurl_forward_size() {
    let basis = nedelec(ElemTopology::Triangle, 1, 3).unwrap();
    let nelem = 2;
    let ndof = 3;
    let nqpts = 3;
    let dim = 2;
    let u = vec![0.0f64; nelem * ndof * dim];
    let mut v = vec![0.0f64; nelem * nqpts]; // scalar curl in 2D
    basis
        .apply(nelem, false, EvalMode::HCurl, &u, &mut v)
        .unwrap();
}

#[test]
fn tri_nedelec_hcurl_transpose_size() {
    let basis = nedelec(ElemTopology::Triangle, 1, 3).unwrap();
    let nelem = 2;
    let ndof = 3;
    let nqpts = 3;
    let dim = 2;
    let u = vec![0.0f64; nelem * nqpts]; // scalar curl in 2D
    let mut v = vec![0.0f64; nelem * ndof * dim];
    basis
        .apply(nelem, true, EvalMode::HCurl, &u, &mut v)
        .unwrap();
}

#[test]
fn tet_nedelec_hcurl_forward_size() {
    let basis = nedelec(ElemTopology::Tet, 1, 4).unwrap();
    let nelem = 2;
    let ndof = 6;
    let nqpts = 4;
    let dim = 3;
    let u = vec![0.0f64; nelem * ndof * dim];
    let mut v = vec![0.0f64; nelem * nqpts * 3]; // 3-vector curl
    basis
        .apply(nelem, false, EvalMode::HCurl, &u, &mut v)
        .unwrap();
}

#[test]
fn tet_nedelec_hcurl_transpose_size() {
    let basis = nedelec(ElemTopology::Tet, 1, 4).unwrap();
    let nelem = 2;
    let ndof = 6;
    let nqpts = 4;
    let dim = 3;
    let u = vec![0.0f64; nelem * nqpts * 3]; // 3-vector curl
    let mut v = vec![0.0f64; nelem * ndof * dim];
    basis
        .apply(nelem, true, EvalMode::HCurl, &u, &mut v)
        .unwrap();
}

#[test]
fn tri_nedelec_rejects_grad_mode() {
    let basis = nedelec(ElemTopology::Triangle, 1, 3).unwrap();
    let u = vec![0.0f64; 3 * 2];
    let mut v = vec![0.0f64; 3 * 2];
    assert!(basis.apply(1, false, EvalMode::Grad, &u, &mut v).is_err());
}

// ── apply: Weight mode ─────────────────────────────────────────────────

#[test]
fn tri_nedelec_weight_mode() {
    let basis = nedelec(ElemTopology::Triangle, 1, 3).unwrap();
    let nelem = 2;
    let mut v = vec![0.0f64; nelem * 3];
    basis
        .apply(nelem, false, EvalMode::Weight, &[], &mut v)
        .unwrap();
    // each element gets the same quadrature weights
    assert!((v[0] - v[3]).abs() < TOL);
}

// ── transpose consistency: forward+transpose = identity (up to quadrature) ─

#[test]
fn tri_nedelec_interp_transpose_consistency() {
    let basis = nedelec(ElemTopology::Triangle, 1, 3).unwrap();
    let nelem = 1;
    let ndof = 3;
    let nqpts = 3;
    let dim = 2;

    // u_dof: [ndof*dim], populate scalar DOFs
    let mut u_dof = vec![0.0f64; nelem * ndof * dim];
    for dof in 0..ndof {
        u_dof[dof * dim] = (dof + 1) as f64; // scalar value at first component
    }

    // forward interp: DOF → qpts
    let mut v_qpts = vec![0.0f64; nelem * nqpts * dim];
    basis
        .apply(nelem, false, EvalMode::Interp, &u_dof, &mut v_qpts)
        .unwrap();

    // transpose interp: qpts → DOF
    let mut u_dof_back = vec![0.0f64; nelem * ndof * dim];
    basis
        .apply(nelem, true, EvalMode::Interp, &v_qpts, &mut u_dof_back)
        .unwrap();

    // Check that we got back nonzero values (quadrature projection is not identity
    // but should preserve the space: (B^T B) u ≈ M u where M is the mass matrix)
    for dof in 0..ndof {
        let val = u_dof_back[dof * dim];
        assert!(
            val.abs() > TOL,
            "transpose consistency: dof {dof} is zero"
        );
    }
}

#[test]
fn tet_nedelec_interp_transpose_consistency() {
    let basis = nedelec(ElemTopology::Tet, 1, 4).unwrap();
    let nelem = 1;
    let ndof = 6;
    let nqpts = 4;
    let dim = 3;

    let mut u_dof = vec![0.0f64; nelem * ndof * dim];
    for dof in 0..ndof {
        u_dof[dof * dim] = (dof + 1) as f64;
    }

    let mut v_qpts = vec![0.0f64; nelem * nqpts * dim];
    basis
        .apply(nelem, false, EvalMode::Interp, &u_dof, &mut v_qpts)
        .unwrap();

    let mut u_dof_back = vec![0.0f64; nelem * ndof * dim];
    basis
        .apply(nelem, true, EvalMode::Interp, &v_qpts, &mut u_dof_back)
        .unwrap();

    for dof in 0..ndof {
        let val = u_dof_back[dof * dim];
        assert!(val.abs() > TOL, "transpose consistency: dof {dof} is zero");
    }
}

// ── P2 triangle tests ──────────────────────────────────────────────────

#[test]
fn construct_tri_nedelec_p2() {
    let basis = nedelec(ElemTopology::Triangle, 2, 6).unwrap();
    assert_eq!(basis.dim(), 2);
    assert_eq!(basis.num_dof(), 8);
    assert_eq!(basis.num_qpoints(), 6);
    assert_eq!(basis.num_comp(), 2);
}

#[test]
fn tri_nedelec_p2_p1_subspace() {
    // The P1 basis should be exactly the first 3 DOFs of the P2 basis.
    // Evaluate both at several quadrature points and compare.
    let basis_p1 = nedelec(ElemTopology::Triangle, 1, 6).unwrap();
    let basis_p2 = nedelec(ElemTopology::Triangle, 2, 6).unwrap();

    assert_eq!(basis_p1.num_qpoints(), basis_p2.num_qpoints());

    // Compare interpolant values: for each qpt, P1 dof 0..2 should match P2 dof 0..2
    for qpt in 0..basis_p1.num_qpoints() {
        for dof in 0..3 {
            for d in 0..2 {
                let v1 = basis_p1.interp()[(qpt * 3 + dof) * 2 + d];
                let v2 = basis_p2.interp()[(qpt * 8 + dof) * 2 + d];
                assert!(
                    (v1 - v2).abs() < TOL,
                    "P1/P2 mismatch at qpt={qpt} dof={dof} d={d}: {v1} vs {v2}"
                );
            }
        }
        // Curl should match for the first 3 DOFs
        for dof in 0..3 {
            let c1 = basis_p1.curl_matrix()[qpt * 3 + dof];
            let c2 = basis_p2.curl_matrix()[qpt * 8 + dof];
            assert!(
                (c1 - c2).abs() < TOL,
                "P1/P2 curl mismatch at qpt={qpt} dof={dof}: {c1} vs {c2}"
            );
        }
    }
}

#[test]
fn tri_nedelec_p2_face_tangential_zero_on_edges() {
    // Face functions (DOFs 6 and 7) should have zero tangential component on all edges.
    let _basis = nedelec(ElemTopology::Triangle, 2, 6).unwrap();

    // Edge normals (perpendicular to edge, used to project tangent):
    // Edge (0,1): y=0, tangent = (1,0), normal for tangent test: dot with (0,1)
    // Edge (1,2): x+y=1, tangent = (-1,1)/√2, normal = (1,1)/√2
    // Edge (0,2): x=0, tangent = (0,1), normal for tangent test: dot with (1,0)

    // The tangential component = dot(basis_vector, edge_tangent).
    // We evaluate at quadrature points and check against known edge locations.

    // We'll verify at known quadrature points by checking that
    // on each edge, the face functions are parallel to the edge normal
    // (i.e., have zero tangential component).

    // Edge (0,1): y=0. Face DOF 6 = λ_0 λ_1 ∇λ_2 = x(1-x) * (0,1).
    // Tangent = (1,0). Dot = 0. ✓
    // Face DOF 7 = λ_0 λ_2 ∇λ_1 = 0 * λ_2 * (1,0) = 0. ✓

    // We can't easily identify which qpts are on edges with standard quadrature,
    // so instead verify that both face functions vanish at vertices:
    // At each vertex, one of the λ factors is 1, the others 0,
    // so λ_0 λ_1 = 0 and λ_0 λ_2 = 0 → both face functions = 0.

    // Evaluate at the three vertices via the P2 shape functions directly
    for &(x, y) in &[(0.0, 0.0), (1.0, 0.0), (0.0, 1.0)] {
        let (_phi, _curl) = tri_nedelec_p2(x, y);
        // Face DOFs are 6 and 7
        for dof in 6..8 {
            let fx = _phi[dof * 2];
            let fy = _phi[dof * 2 + 1];
            assert!(
                fx.abs() < TOL && fy.abs() < TOL,
                "Face DOF {dof} non-zero at vertex ({x},{y}): ({fx},{fy})"
            );
        }
    }
}

#[test]
fn tri_nedelec_p2_edge_bubble_zero_at_midpoint() {
    // The edge bubble functions (DOF 3–5) should vanish at edge midpoints
    // where λ_i = λ_j.
    // Edge (0,1) midpoint: (0.5, 0), λ_0 = 0.5, λ_1 = 0.5
    // Edge (1,2) midpoint: (0.5, 0.5), λ_1 = 0.5, λ_2 = 0.5
    // Edge (0,2) midpoint: (0, 0.5), λ_0 = 0.5, λ_2 = 0.5
    for &(x, y, dof_bubble) in &[
        (0.5, 0.0, 3),  // edge (0,1) midpoint, bubble DOF 3
        (0.5, 0.5, 4),  // edge (1,2) midpoint, bubble DOF 4
        (0.0, 0.5, 5),  // edge (2,0) midpoint, bubble DOF 5
    ] {
        let (phi, _curl) = tri_nedelec_p2(x, y);
        let fx = phi[dof_bubble * 2];
        let fy = phi[dof_bubble * 2 + 1];
        assert!(
            fx.abs() < TOL && fy.abs() < TOL,
            "Edge bubble DOF {dof_bubble} non-zero at midpoint ({x},{y}): ({fx},{fy})"
        );
    }
}

#[test]
fn tri_nedelec_p2_curl_varies() {
    // Verify that the curl of P2 basis functions is not constant
    // (unlike P1 where curl is always 2).
    let (_phi1, curl1) = tri_nedelec_p2(0.1, 0.2);
    let (_phi2, curl2) = tri_nedelec_p2(0.7, 0.1);

    // P1 DOFs 0-2 should have constant curl (same at both points)
    for dof in 0..3 {
        assert!(
            (curl1[dof] - curl2[dof]).abs() < TOL,
            "P1 DOF {dof}: curl should be constant"
        );
    }

    // P2 edge bubbles (DOF 3-5) or face (DOF 6-7) should vary
    let mut any_varied = false;
    for dof in 3..8 {
        if (curl1[dof] - curl2[dof]).abs() > TOL {
            any_varied = true;
            break;
        }
    }
    assert!(any_varied, "P2 DOF curls should vary with position");

    // Also verify: at any point, the curl of DOF 6 (face 1) should equal
    // something derived analytically: curl_f1 = λ_0 − λ_1 = 1 - 2x - y
    let (_, curl) = tri_nedelec_p2(0.2, 0.3);
    let expected_curl_f1 = 1.0 - 2.0 * 0.2 - 0.3; // 1 - 0.4 - 0.3 = 0.3
    assert!((curl[6] - expected_curl_f1).abs() < TOL,
        "Face 1 curl mismatch: got {}, expected {}", curl[6], expected_curl_f1);

    let expected_curl_f2 = 0.3 - (1.0 - 0.2 - 0.3); // y - λ_0 = 0.3 - 0.5 = -0.2
    assert!((curl[7] - expected_curl_f2).abs() < TOL,
        "Face 2 curl mismatch: got {}, expected {}", curl[7], expected_curl_f2);
}

#[test]
fn tri_nedelec_p2_interp_forward_size() {
    let basis = nedelec(ElemTopology::Triangle, 2, 6).unwrap();
    let nelem = 2;
    let ndof = 8;
    let nqpts = 6;
    let dim = 2;
    let u = vec![0.0f64; nelem * ndof * dim];
    let mut v = vec![0.0f64; nelem * nqpts * dim];
    basis
        .apply(nelem, false, EvalMode::Interp, &u, &mut v)
        .unwrap();
}

#[test]
fn tri_nedelec_p2_hcurl_forward_size() {
    let basis = nedelec(ElemTopology::Triangle, 2, 6).unwrap();
    let nelem = 2;
    let ndof = 8;
    let nqpts = 6;
    let dim = 2;
    let u = vec![0.0f64; nelem * ndof * dim];
    let mut v = vec![0.0f64; nelem * nqpts];
    basis
        .apply(nelem, false, EvalMode::HCurl, &u, &mut v)
        .unwrap();
}

#[test]
fn tri_nedelec_p2_transpose_consistency() {
    let basis = nedelec(ElemTopology::Triangle, 2, 6).unwrap();
    let nelem = 1;
    let ndof = 8;
    let nqpts = 6;
    let dim = 2;

    let mut u_dof = vec![0.0f64; nelem * ndof * dim];
    for dof in 0..ndof {
        u_dof[dof * dim] = (dof + 1) as f64;
    }

    let mut v_qpts = vec![0.0f64; nelem * nqpts * dim];
    basis
        .apply(nelem, false, EvalMode::Interp, &u_dof, &mut v_qpts)
        .unwrap();

    let mut u_dof_back = vec![0.0f64; nelem * ndof * dim];
    basis
        .apply(nelem, true, EvalMode::Interp, &v_qpts, &mut u_dof_back)
        .unwrap();

    for dof in 0..ndof {
        let val = u_dof_back[dof * dim];
        assert!(
            val.abs() > TOL,
            "P2 transpose consistency: dof {dof} is zero"
        );
    }
}

// ── P2 tet tests ──────────────────────────────────────────────────────

#[test]
fn construct_tet_nedelec_p2() {
    let basis = nedelec(ElemTopology::Tet, 2, 4).unwrap();
    assert_eq!(basis.dim(), 3);
    assert_eq!(basis.num_dof(), 20);
    assert_eq!(basis.num_qpoints(), 4);
    assert_eq!(basis.num_comp(), 3);
}

#[test]
fn tet_nedelec_p2_p1_subspace() {
    // The P1 basis should be exactly the first 6 DOFs of the P2 basis.
    let basis_p1 = nedelec(ElemTopology::Tet, 1, 4).unwrap();
    let basis_p2 = nedelec(ElemTopology::Tet, 2, 4).unwrap();

    assert_eq!(basis_p1.num_qpoints(), basis_p2.num_qpoints());

    // Compare interpolant values: P1 dof 0..5 should match P2 dof 0..5
    for qpt in 0..basis_p1.num_qpoints() {
        for dof in 0..6 {
            for d in 0..3 {
                let v1 = basis_p1.interp()[(qpt * 6 + dof) * 3 + d];
                let v2 = basis_p2.interp()[(qpt * 20 + dof) * 3 + d];
                assert!(
                    (v1 - v2).abs() < TOL,
                    "P1/P2 mismatch at qpt={qpt} dof={dof} d={d}: {v1} vs {v2}"
                );
            }
        }
        // Curl should match for the first 6 DOFs
        for dof in 0..6 {
            for d in 0..3 {
                let c1 = basis_p1.curl_matrix()[(qpt * 6 + dof) * 3 + d];
                let c2 = basis_p2.curl_matrix()[(qpt * 20 + dof) * 3 + d];
                assert!(
                    (c1 - c2).abs() < TOL,
                    "P1/P2 curl mismatch at qpt={qpt} dof={dof} d={d}: {c1} vs {c2}"
                );
            }
        }
    }
}

#[test]
fn tet_nedelec_p2_face_zero_at_vertices() {
    // Face functions (DOFs 12–19) should vanish at all tet vertices
    // because each is a product of two barycentrics, and at every vertex,
    // at least one of the two lambdas is zero.
    for &(x, y, z) in &[
        (0.0, 0.0, 0.0),
        (1.0, 0.0, 0.0),
        (0.0, 1.0, 0.0),
        (0.0, 0.0, 1.0),
    ] {
        let (phi, _curl) = tet_nedelec_p2(x, y, z);
        for dof in 12..20 {
            let fx = phi[dof * 3];
            let fy = phi[dof * 3 + 1];
            let fz = phi[dof * 3 + 2];
            assert!(
                fx.abs() < TOL && fy.abs() < TOL && fz.abs() < TOL,
                "Face DOF {dof} non-zero at vertex ({x},{y},{z}): ({fx},{fy},{fz})"
            );
        }
    }
}

#[test]
fn tet_nedelec_p2_edge_bubble_zero_at_midpoint() {
    // Edge bubble functions (DOF 6–11) should vanish at edge midpoints
    // where λ_i = λ_j.
    // Edge midpoints: (0.5,0,0), (0,0.5,0), (0,0,0.5), (0.5,0.5,0), (0.5,0,0.5), (0,0.5,0.5)
    for &(x, y, z, dof_bubble) in &[
        (0.5, 0.0, 0.0, 6),   // edge (0,1) midpoint
        (0.0, 0.5, 0.0, 7),   // edge (0,2) midpoint
        (0.0, 0.0, 0.5, 8),   // edge (0,3) midpoint
        (0.5, 0.5, 0.0, 9),   // edge (1,2) midpoint
        (0.5, 0.0, 0.5, 10),  // edge (1,3) midpoint
        (0.0, 0.5, 0.5, 11),  // edge (2,3) midpoint
    ] {
        let (phi, _curl) = tet_nedelec_p2(x, y, z);
        let fx = phi[dof_bubble * 3];
        let fy = phi[dof_bubble * 3 + 1];
        let fz = phi[dof_bubble * 3 + 2];
        assert!(
            fx.abs() < TOL && fy.abs() < TOL && fz.abs() < TOL,
            "Edge bubble DOF {dof_bubble} non-zero at midpoint ({x},{y},{z}): ({fx},{fy},{fz})"
        );
    }
}

#[test]
fn tet_nedelec_p2_curl_varies() {
    // P1 DOFs 0-5 should have constant curl (same at two points).
    // P2 DOFs 6-19 should have spatially varying curl.
    let (_phi1, curl1) = tet_nedelec_p2(0.1, 0.2, 0.3);
    let (_phi2, curl2) = tet_nedelec_p2(0.4, 0.1, 0.2);

    for dof in 0..6 {
        for d in 0..3 {
            assert!(
                (curl1[dof * 3 + d] - curl2[dof * 3 + d]).abs() < TOL,
                "P1 DOF {dof} d={d}: curl should be constant"
            );
        }
    }

    let mut any_varied = false;
    for dof in 6..20 {
        for d in 0..3 {
            if (curl1[dof * 3 + d] - curl2[dof * 3 + d]).abs() > TOL {
                any_varied = true;
                break;
            }
        }
        if any_varied {
            break;
        }
    }
    assert!(any_varied, "P2 DOF curls should vary with position");
}

#[test]
fn tet_nedelec_p2_interp_forward_size() {
    let basis = nedelec(ElemTopology::Tet, 2, 4).unwrap();
    let nelem = 2;
    let ndof = 20;
    let nqpts = 4;
    let dim = 3;
    let u = vec![0.0f64; nelem * ndof * dim];
    let mut v = vec![0.0f64; nelem * nqpts * dim];
    basis
        .apply(nelem, false, EvalMode::Interp, &u, &mut v)
        .unwrap();
}

#[test]
fn tet_nedelec_p2_hcurl_forward_size() {
    let basis = nedelec(ElemTopology::Tet, 2, 4).unwrap();
    let nelem = 2;
    let ndof = 20;
    let nqpts = 4;
    let dim = 3;
    let u = vec![0.0f64; nelem * ndof * dim];
    let mut v = vec![0.0f64; nelem * nqpts * 3];
    basis
        .apply(nelem, false, EvalMode::HCurl, &u, &mut v)
        .unwrap();
}

#[test]
fn tet_nedelec_p2_transpose_consistency() {
    let basis = nedelec(ElemTopology::Tet, 2, 4).unwrap();
    let nelem = 1;
    let ndof = 20;
    let nqpts = 4;
    let dim = 3;

    let mut u_dof = vec![0.0f64; nelem * ndof * dim];
    for dof in 0..ndof {
        u_dof[dof * dim] = (dof + 1) as f64;
    }

    let mut v_qpts = vec![0.0f64; nelem * nqpts * dim];
    basis
        .apply(nelem, false, EvalMode::Interp, &u_dof, &mut v_qpts)
        .unwrap();

    let mut u_dof_back = vec![0.0f64; nelem * ndof * dim];
    basis
        .apply(nelem, true, EvalMode::Interp, &v_qpts, &mut u_dof_back)
        .unwrap();

    for dof in 0..ndof {
        let val = u_dof_back[dof * dim];
        assert!(
            val.abs() > TOL,
            "Tet P2 transpose consistency: dof {dof} is zero"
        );
    }
}

#[test]
fn tet_nedelec_p1_curl_is_recovered_by_p2() {
    // The constant curl of P1 edge functions should exactly match the
    // first 6 DOF curls from P2 at any point.
    let (_phi, curl) = tet_nedelec_p2(0.3, 0.1, 0.2);
    let (_phi_p1, curl_p1) = tet_nedelec_p1(0.3, 0.1, 0.2);
    for dof in 0..6 {
        for d in 0..3 {
            assert!(
                (curl[dof * 3 + d] - curl_p1[dof * 3 + d]).abs() < TOL,
                "P2 DOF {dof} d={d}: curl {} != P1 {}",
                curl[dof * 3 + d],
                curl_p1[dof * 3 + d]
            );
        }
    }
}

// ── P3 triangle tests ──────────────────────────────────────────────────

#[test]
fn construct_tri_nedelec_p3() {
    let basis = nedelec(ElemTopology::Triangle, 3, 6).unwrap();
    assert_eq!(basis.dim(), 2);
    assert_eq!(basis.num_dof(), 15);
    assert_eq!(basis.num_qpoints(), 6);
    assert_eq!(basis.num_comp(), 2);
}

#[test]
fn tri_nedelec_p3_p2_subspace() {
    // The P2 basis should be exactly the first 8 DOFs of the P3 basis.
    let basis_p2 = nedelec(ElemTopology::Triangle, 2, 6).unwrap();
    let basis_p3 = nedelec(ElemTopology::Triangle, 3, 6).unwrap();

    assert_eq!(basis_p2.num_qpoints(), basis_p3.num_qpoints());

    for qpt in 0..basis_p2.num_qpoints() {
        for dof in 0..8 {
            for d in 0..2 {
                let v2 = basis_p2.interp()[(qpt * 8 + dof) * 2 + d];
                let v3 = basis_p3.interp()[(qpt * 15 + dof) * 2 + d];
                assert!(
                    (v2 - v3).abs() < TOL,
                    "P2/P3 mismatch at qpt={qpt} dof={dof} d={d}: {v2} vs {v3}"
                );
            }
        }
        for dof in 0..8 {
            let c2 = basis_p2.curl_matrix()[qpt * 8 + dof];
            let c3 = basis_p3.curl_matrix()[qpt * 15 + dof];
            assert!(
                (c2 - c3).abs() < TOL,
                "P2/P3 curl mismatch at qpt={qpt} dof={dof}: {c2} vs {c3}"
            );
        }
    }
}

#[test]
fn tri_nedelec_p3_edge_bubble_zero_at_midpoint() {
    // P3 edge bubble functions (DOF 8–10) should vanish at edge midpoints
    // where λ_i = λ_j (since (λ_i − λ_j)^2 = 0).
    for &(x, y, dof_bubble) in &[
        (0.5, 0.0, 8),  // edge (0,1) midpoint, bubble DOF 8
        (0.5, 0.5, 9),  // edge (1,2) midpoint, bubble DOF 9
        (0.0, 0.5, 10), // edge (2,0) midpoint, bubble DOF 10
    ] {
        let (phi, _curl) = tri_nedelec_p3(x, y);
        let fx = phi[dof_bubble * 2];
        let fy = phi[dof_bubble * 2 + 1];
        assert!(
            fx.abs() < TOL && fy.abs() < TOL,
            "P3 edge bubble DOF {dof_bubble} non-zero at midpoint ({x},{y}): ({fx},{fy})"
        );
    }
}

#[test]
fn tri_nedelec_p3_face_zero_at_vertices() {
    // P3 face functions (DOFs 11–14) should vanish at all vertices
    // (each contains at least two λ factors and at each vertex at most one λ = 1).
    for &(x, y) in &[(0.0, 0.0), (1.0, 0.0), (0.0, 1.0)] {
        let (phi, _curl) = tri_nedelec_p3(x, y);
        for dof in 11..15 {
            let fx = phi[dof * 2];
            let fy = phi[dof * 2 + 1];
            assert!(
                fx.abs() < TOL && fy.abs() < TOL,
                "P3 face DOF {dof} non-zero at vertex ({x},{y}): ({fx},{fy})"
            );
        }
    }
}

#[test]
fn tri_nedelec_p3_curl_formulas() {
    // Verify analytic curl formulas at a test point.
    let x = 0.3;
    let y = 0.4;
    let lam0 = 1.0 - x - y; // 0.3
    let lam1 = x; // 0.3
    let lam2 = y; // 0.4

    let (_phi, curl) = tri_nedelec_p3(x, y);

    // DOF 8 (edge 0 P3, vertices (0,1)): f = λ_0−λ_1 = 0.3−0.3 = 0
    // curl = 4*f^2 = 0
    let f0 = lam0 - lam1; // 0.0
    let expected_curl_8 = 4.0 * f0 * f0;
    assert!((curl[8] - expected_curl_8).abs() < TOL,
        "P3 edge 0 curl: got {}, expected {}", curl[8], expected_curl_8);

    // DOF 9 (edge 1 P3, vertices (1,2)): f = λ_1−λ_2 = 0.3−0.4 = −0.1
    let f1 = lam1 - lam2;
    let expected_curl_9 = 4.0 * f1 * f1;
    assert!((curl[9] - expected_curl_9).abs() < TOL,
        "P3 edge 1 curl: got {}, expected {}", curl[9], expected_curl_9);

    // DOF 10 (edge 2 P3, vertices (2,0)): f = λ_2−λ_0 = 0.4−0.3 = 0.1
    let f2 = lam2 - lam0;
    let expected_curl_10 = 4.0 * f2 * f2;
    assert!((curl[10] - expected_curl_10).abs() < TOL,
        "P3 edge 2 curl: got {}, expected {}", curl[10], expected_curl_10);

    // DOF 11: curl = λ_0(λ_1 − λ_2) = 0.3*(0.3-0.4) = -0.03
    let expected_curl_11 = lam0 * (lam1 - lam2);
    assert!((curl[11] - expected_curl_11).abs() < TOL,
        "P3 face 0 curl: got {}, expected {}", curl[11], expected_curl_11);

    // DOF 12: curl = λ_1 λ_2 − λ_0 λ_1 = 0.3*0.4 - 0.3*0.3 = 0.12 - 0.09 = 0.03
    let expected_curl_12 = lam1 * lam2 - lam0 * lam1;
    assert!((curl[12] - expected_curl_12).abs() < TOL,
        "P3 face 1 curl: got {}, expected {}", curl[12], expected_curl_12);

    // DOF 13: curl = λ_0^2 − 2λ_0 λ_1 = 0.09 - 0.18 = -0.09
    let expected_curl_13 = lam0 * lam0 - 2.0 * lam0 * lam1;
    assert!((curl[13] - expected_curl_13).abs() < TOL,
        "P3 face 2 curl: got {}, expected {}", curl[13], expected_curl_13);

    // DOF 14: curl = 2λ_0 λ_1 − λ_1^2 = 0.18 - 0.09 = 0.09
    let expected_curl_14 = 2.0 * lam0 * lam1 - lam1 * lam1;
    assert!((curl[14] - expected_curl_14).abs() < TOL,
        "P3 face 3 curl: got {}, expected {}", curl[14], expected_curl_14);
}

#[test]
fn tri_nedelec_p3_interp_forward_size() {
    let basis = nedelec(ElemTopology::Triangle, 3, 6).unwrap();
    let nelem = 2;
    let ndof = 15;
    let nqpts = 6;
    let dim = 2;
    let u = vec![0.0f64; nelem * ndof * dim];
    let mut v = vec![0.0f64; nelem * nqpts * dim];
    basis
        .apply(nelem, false, EvalMode::Interp, &u, &mut v)
        .unwrap();
}

#[test]
fn tri_nedelec_p3_hcurl_forward_size() {
    let basis = nedelec(ElemTopology::Triangle, 3, 6).unwrap();
    let nelem = 2;
    let ndof = 15;
    let nqpts = 6;
    let dim = 2;
    let u = vec![0.0f64; nelem * ndof * dim];
    let mut v = vec![0.0f64; nelem * nqpts];
    basis
        .apply(nelem, false, EvalMode::HCurl, &u, &mut v)
        .unwrap();
}

#[test]
fn tri_nedelec_p3_transpose_consistency() {
    let basis = nedelec(ElemTopology::Triangle, 3, 6).unwrap();
    let nelem = 1;
    let ndof = 15;
    let nqpts = 6;
    let dim = 2;

    let mut u_dof = vec![0.0f64; nelem * ndof * dim];
    for dof in 0..ndof {
        u_dof[dof * dim] = (dof + 1) as f64;
    }

    let mut v_qpts = vec![0.0f64; nelem * nqpts * dim];
    basis
        .apply(nelem, false, EvalMode::Interp, &u_dof, &mut v_qpts)
        .unwrap();

    let mut u_dof_back = vec![0.0f64; nelem * ndof * dim];
    basis
        .apply(nelem, true, EvalMode::Interp, &v_qpts, &mut u_dof_back)
        .unwrap();

    for dof in 0..ndof {
        let val = u_dof_back[dof * dim];
        assert!(
            val.abs() > TOL,
            "P3 transpose consistency: dof {dof} is zero"
        );
    }
}

#[test]
fn tri_nedelec_p3_hcurl_transpose_consistency() {
    let basis = nedelec(ElemTopology::Triangle, 3, 6).unwrap();
    let nelem = 1;
    let ndof = 15;
    let nqpts = 6;
    let dim = 2;

    let mut u_dof = vec![0.0f64; nelem * ndof * dim];
    for dof in 0..ndof {
        u_dof[dof * dim] = (dof + 1) as f64;
    }

    let mut v_curl = vec![0.0f64; nelem * nqpts];
    basis
        .apply(nelem, false, EvalMode::HCurl, &u_dof, &mut v_curl)
        .unwrap();

    let mut u_dof_back = vec![0.0f64; nelem * ndof * dim];
    basis
        .apply(nelem, true, EvalMode::HCurl, &v_curl, &mut u_dof_back)
        .unwrap();

    for dof in 0..ndof {
        let val = u_dof_back[dof * dim];
        assert!(
            val.abs() > TOL,
            "P3 HCurl transpose consistency: dof {dof} is zero"
        );
    }
}
