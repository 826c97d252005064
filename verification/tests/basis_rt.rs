//! Face elements on triangles and tetrahedra.

use reed::basis::BasisTrait;
use reed::cpu::basis_rt::RaviartThomasBasis;
use reed::cpu::vector_shapes as table;
use reed::enums::{ElemTopology, EvalMode};
use reed::error::ReedResult;
use reed::scalar::{Real, Scalar};

/// Double-precision numbers.
#[derive(Clone, Copy, Debug, PartialEq, PartialOrd)]
struct F64(f64);

impl Real for F64 {
    fn zero() -> Self {
        F64(0.0)
    }
    fn one() -> Self {
        F64(1.0)
    }
    fn from_int(n: i64) -> Self {
        F64(n as f64)
    }
    fn pi() -> Self {
        F64(std::f64::consts::PI)
    }
    fn epsilon() -> Self {
        F64(f64::EPSILON)
    }
    fn add(self, rhs: Self) -> Self {
        F64(self.0 + rhs.0)
    }
    fn sub(self, rhs: Self) -> Self {
        F64(self.0 - rhs.0)
    }
    fn mul(self, rhs: Self) -> Self {
        F64(self.0 * rhs.0)
    }
    fn div(self, rhs: Self) -> Self {
        F64(self.0 / rhs.0)
    }
    fn neg(self) -> Self {
        F64(-self.0)
    }
    fn abs(self) -> Self {
        F64(self.0.abs())
    }
    fn sqrt(self) -> Self {
        F64(self.0.sqrt())
    }
    fn cos(self) -> Self {
        F64(self.0.cos())
    }
    fn lt(self, rhs: Self) -> bool {
        self.0 < rhs.0
    }
    fn le(self, rhs: Self) -> bool {
        self.0 <= rhs.0
    }
    fn eq_value(self, rhs: Self) -> bool {
        self.0 == rhs.0
    }
    fn to_text(self) -> String {
        format!("{}", self.0)
    }
}


impl Scalar for F64 {
    type Work = F64;

    fn from_work(w: F64) -> Option<Self> {
        Some(w)
    }
    fn to_work(self) -> F64 {
        self
    }
}

fn wrap(x: &[f64]) -> Vec<F64> {
    x.iter().map(|v| F64(*v)).collect()
}

fn plain(x: &[F64]) -> Vec<f64> {
    x.iter().map(|v| v.0).collect()
}

/// A basis over plain numbers.
struct Plain<B>(B);

impl<B: BasisTrait<F64>> Plain<B> {
    fn dim(&self) -> usize {
        self.0.dim()
    }
    fn num_dof(&self) -> usize {
        self.0.num_dof()
    }
    fn num_qpoints(&self) -> usize {
        self.0.num_qpoints()
    }
    fn num_comp(&self) -> usize {
        self.0.num_comp()
    }
    fn q_weights(&self) -> Vec<f64> {
        plain(self.0.q_weights())
    }
    fn q_ref(&self) -> Vec<f64> {
        plain(self.0.q_ref())
    }
    fn apply(
        &self,
        num_elem: usize,
        transpose: bool,
        mode: EvalMode,
        u: &[f64],
        v: &mut [f64],
    ) -> ReedResult<()> {
        let mut w = wrap(v);
        let r = self.0.apply(num_elem, transpose, mode, &wrap(u), &mut w);
        for (x, y) in v.iter_mut().zip(w.iter()) {
            *x = y.0;
        }
        r
    }
}

fn raviart_thomas(topo: ElemTopology, p: usize, q: usize) -> ReedResult<Plain<RaviartThomasBasis<F64>>> {
    RaviartThomasBasis::new(topo, p, q).map(Plain)
}

impl Plain<RaviartThomasBasis<F64>> {
    fn interp(&self) -> Vec<f64> {
        plain(self.0.interp_data())
    }
    fn div_matrix(&self) -> Vec<f64> {
        plain(self.0.div_data())
    }
}

fn tri_rt0(x: f64, y: f64) -> (Vec<f64>, Vec<f64>) {
    let (a, b) = table::tri_rt0(F64(x), F64(y));
    (plain(&a), plain(&b))
}

fn tri_rt1(x: f64, y: f64) -> (Vec<f64>, Vec<f64>) {
    let (a, b) = table::tri_rt1(F64(x), F64(y));
    (plain(&a), plain(&b))
}

fn tri_rt2(x: f64, y: f64) -> (Vec<f64>, Vec<f64>) {
    let (a, b) = table::tri_rt2(F64(x), F64(y));
    (plain(&a), plain(&b))
}

fn tet_rt0(x: f64, y: f64, z: f64) -> (Vec<f64>, Vec<f64>) {
    let (a, b) = table::tet_rt0(F64(x), F64(y), F64(z));
    (plain(&a), plain(&b))
}

fn tet_rt1(x: f64, y: f64, z: f64) -> (Vec<f64>, Vec<f64>) {
    let (a, b) = table::tet_rt1(F64(x), F64(y), F64(z));
    (plain(&a), plain(&b))
}

const TOL: f64 = 1e-12;

// ── shape function tests ───────────────────────────────────────────────

#[test]
fn tri_rt0_div_is_constant_2() {
    // At any point, all divergence values should be 2.
    for &(x, y) in &[(0.1, 0.2), (0.5, 0.3), (1.0 / 3.0, 1.0 / 3.0)] {
        let (_phi, div) = tri_rt0(x, y);
        for dof in 0..3 {
            assert!(
                (div[dof] - 2.0).abs() < TOL,
                "tri div[dof={}] = {} at ({},{})",
                dof,
                div[dof],
                x,
                y
            );
        }
    }
}

#[test]
fn tet_rt0_div_is_constant_6() {
    // At any point, all divergence values should be 6.
    for &(x, y, z) in &[
        (0.1, 0.2, 0.3),
        (0.5, 0.1, 0.1),
        (0.25, 0.25, 0.25),
    ] {
        let (_phi, div) = tet_rt0(x, y, z);
        for dof in 0..4 {
            assert!(
                (div[dof] - 6.0).abs() < TOL,
                "tet div[dof={}] = {} at ({},{},{})",
                dof,
                div[dof],
                x,
                y,
                z
            );
        }
    }
}

#[test]
fn tri_rt0_basis_values() {
    // Verify specific basis values at the centroid (1/3, 1/3).
    let x = 1.0 / 3.0;
    let y = 1.0 / 3.0;
    let (phi, _div) = tri_rt0(x, y);
    // ψ₀ = (x, y) = (1/3, 1/3)
    assert!((phi[0] - 1.0 / 3.0).abs() < TOL);
    assert!((phi[1] - 1.0 / 3.0).abs() < TOL);
    // ψ₁ = (x-1, y) = (-2/3, 1/3)
    assert!((phi[2] - (-2.0 / 3.0)).abs() < TOL);
    assert!((phi[3] - 1.0 / 3.0).abs() < TOL);
    // ψ₂ = (x, y-1) = (1/3, -2/3)
    assert!((phi[4] - 1.0 / 3.0).abs() < TOL);
    assert!((phi[5] - (-2.0 / 3.0)).abs() < TOL);
}

#[test]
fn tet_rt0_basis_values() {
    // Verify specific basis values at the centroid (1/4, 1/4, 1/4).
    let x = 0.25;
    let y = 0.25;
    let z = 0.25;
    let (phi, _div) = tet_rt0(x, y, z);
    // ψ₀ = 2(x, y, z) = (0.5, 0.5, 0.5)
    assert!((phi[0] - 0.5).abs() < TOL);
    assert!((phi[1] - 0.5).abs() < TOL);
    assert!((phi[2] - 0.5).abs() < TOL);
    // ψ₁ = 2(x-1, y, z) = (-1.5, 0.5, 0.5)
    assert!((phi[3] - (-1.5)).abs() < TOL);
    assert!((phi[4] - 0.5).abs() < TOL);
    assert!((phi[5] - 0.5).abs() < TOL);
    // ψ₂ = 2(x, y-1, z) = (0.5, -1.5, 0.5)
    assert!((phi[6] - 0.5).abs() < TOL);
    assert!((phi[7] - (-1.5)).abs() < TOL);
    assert!((phi[8] - 0.5).abs() < TOL);
    // ψ₃ = 2(x, y, z-1) = (0.5, 0.5, -1.5)
    assert!((phi[9] - 0.5).abs() < TOL);
    assert!((phi[10] - 0.5).abs() < TOL);
    assert!((phi[11] - (-1.5)).abs() < TOL);
}

// ── basis construction tests ───────────────────────────────────────────

#[test]
fn construct_tri_rt0() {
    let basis = raviart_thomas(ElemTopology::Triangle, 0, 3).unwrap();
    assert_eq!(basis.dim(), 2);
    assert_eq!(basis.num_dof(), 3);
    assert_eq!(basis.num_qpoints(), 3);
    assert_eq!(basis.num_comp(), 2);
    assert_eq!(basis.q_weights().len(), 3);
    assert_eq!(basis.q_ref().len(), 6); // 3 qpts × 2
}

#[test]
fn construct_tet_rt0() {
    let basis = raviart_thomas(ElemTopology::Tet, 0, 4).unwrap();
    assert_eq!(basis.dim(), 3);
    assert_eq!(basis.num_dof(), 4);
    assert_eq!(basis.num_qpoints(), 4);
    assert_eq!(basis.num_comp(), 3);
    assert_eq!(basis.q_weights().len(), 4);
    assert_eq!(basis.q_ref().len(), 12); // 4 qpts × 3
}

#[test]
fn basis_rt_reject_invalid_p() {
    // Triangle: p=0, 1, 2 are OK; higher p rejected
    assert!(raviart_thomas(ElemTopology::Triangle, 0, 3).is_ok());
    assert!(raviart_thomas(ElemTopology::Triangle, 1, 3).is_ok());
    assert!(raviart_thomas(ElemTopology::Triangle, 2, 3).is_ok());
    assert!(raviart_thomas(ElemTopology::Triangle, 3, 3).is_err());
    // Tet: p=0 (RT0) and p=1 (RT1) are OK; higher p rejected
    assert!(raviart_thomas(ElemTopology::Tet, 0, 4).is_ok());
    assert!(raviart_thomas(ElemTopology::Tet, 1, 4).is_ok());
    assert!(raviart_thomas(ElemTopology::Tet, 2, 4).is_err());
}

#[test]
fn basis_rt_reject_unsupported_topo() {
    assert!(raviart_thomas(ElemTopology::Line, 0, 2).is_err());
}

// ── apply: Interp mode ─────────────────────────────────────────────────

#[test]
fn tri_rt0_interp_forward_size() {
    let basis = raviart_thomas(ElemTopology::Triangle, 0, 3).unwrap();
    let nelem = 2;
    let ndof = 3;
    let nqpts = 3;
    let dim = 2;
    let u = vec![0.0f64; nelem * ndof * dim];
    let mut v = vec![0.0f64; nelem * nqpts * dim];
    basis
        .apply(nelem, false, EvalMode::Interp, &u, &mut v)
        .unwrap();
}

#[test]
fn tri_rt0_interp_transpose_size() {
    let basis = raviart_thomas(ElemTopology::Triangle, 0, 3).unwrap();
    let nelem = 2;
    let ndof = 3;
    let nqpts = 3;
    let dim = 2;
    let u = vec![0.0f64; nelem * nqpts * dim];
    let mut v = vec![0.0f64; nelem * ndof * dim];
    basis
        .apply(nelem, true, EvalMode::Interp, &u, &mut v)
        .unwrap();
}

// ── apply: HDiv mode ──────────────────────────────────────────────────

#[test]
fn tri_rt0_hdiv_forward_size() {
    let basis = raviart_thomas(ElemTopology::Triangle, 0, 3).unwrap();
    let nelem = 2;
    let ndof = 3;
    let nqpts = 3;
    let dim = 2;
    let u = vec![0.0f64; nelem * ndof * dim];
    let mut v = vec![0.0f64; nelem * nqpts]; // scalar divergence
    basis
        .apply(nelem, false, EvalMode::HDiv, &u, &mut v)
        .unwrap();
}

#[test]
fn tri_rt0_hdiv_transpose_size() {
    let basis = raviart_thomas(ElemTopology::Triangle, 0, 3).unwrap();
    let nelem = 2;
    let ndof = 3;
    let nqpts = 3;
    let dim = 2;
    let u = vec![0.0f64; nelem * nqpts]; // scalar divergence
    let mut v = vec![0.0f64; nelem * ndof * dim];
    basis
        .apply(nelem, true, EvalMode::HDiv, &u, &mut v)
        .unwrap();
}

#[test]
fn tet_rt0_hdiv_forward_size() {
    let basis = raviart_thomas(ElemTopology::Tet, 0, 4).unwrap();
    let nelem = 2;
    let ndof = 4;
    let nqpts = 4;
    let dim = 3;
    let u = vec![0.0f64; nelem * ndof * dim];
    let mut v = vec![0.0f64; nelem * nqpts]; // scalar divergence in 3D too
    basis
        .apply(nelem, false, EvalMode::HDiv, &u, &mut v)
        .unwrap();
}

#[test]
fn tet_rt0_hdiv_transpose_size() {
    let basis = raviart_thomas(ElemTopology::Tet, 0, 4).unwrap();
    let nelem = 2;
    let ndof = 4;
    let nqpts = 4;
    let dim = 3;
    let u = vec![0.0f64; nelem * nqpts]; // scalar divergence
    let mut v = vec![0.0f64; nelem * ndof * dim];
    basis
        .apply(nelem, true, EvalMode::HDiv, &u, &mut v)
        .unwrap();
}

#[test]
fn tri_rt0_rejects_hcurl_mode() {
    let basis = raviart_thomas(ElemTopology::Triangle, 0, 3).unwrap();
    let u = vec![0.0f64; 3 * 2];
    let mut v = vec![0.0f64; 3 * 2];
    assert!(basis.apply(1, false, EvalMode::HCurl, &u, &mut v).is_err());
}

#[test]
fn tri_rt0_rejects_grad_mode() {
    let basis = raviart_thomas(ElemTopology::Triangle, 0, 3).unwrap();
    let u = vec![0.0f64; 3 * 2];
    let mut v = vec![0.0f64; 3 * 2];
    assert!(basis.apply(1, false, EvalMode::Grad, &u, &mut v).is_err());
}

// ── apply: Weight mode ─────────────────────────────────────────────────

#[test]
fn tri_rt0_weight_mode() {
    let basis = raviart_thomas(ElemTopology::Triangle, 0, 3).unwrap();
    let nelem = 2;
    let mut v = vec![0.0f64; nelem * 3];
    basis
        .apply(nelem, false, EvalMode::Weight, &[], &mut v)
        .unwrap();
    // each element gets the same quadrature weights
    assert!((v[0] - v[3]).abs() < TOL);
}

// ── divergence correctness tests ───────────────────────────────────────

#[test]
fn tri_rt0_hdiv_forward_gives_div2() {
    // With all DOFs set to 1.0, divergence at each qpt should be sum(div_i) = 3*2 = 6.
    let basis = raviart_thomas(ElemTopology::Triangle, 0, 3).unwrap();
    let nelem = 1;
    let ndof = 3;
    let nqpts = 3;
    let dim = 2;
    let mut u = vec![0.0f64; nelem * ndof * dim];
    for dof in 0..ndof {
        u[dof * dim] = 1.0;
    }
    let mut v = vec![0.0f64; nelem * nqpts];
    basis
        .apply(nelem, false, EvalMode::HDiv, &u, &mut v)
        .unwrap();
    for qpt in 0..nqpts {
        assert!((v[qpt] - 6.0).abs() < TOL, "qpt {}: div = {}", qpt, v[qpt]);
    }
}

#[test]
fn tet_rt0_hdiv_forward_gives_div6() {
    // With all DOFs set to 1.0, divergence at each qpt should be sum(div_i) = 4*6 = 24.
    let basis = raviart_thomas(ElemTopology::Tet, 0, 4).unwrap();
    let nelem = 1;
    let ndof = 4;
    let nqpts = 4;
    let dim = 3;
    let mut u = vec![0.0f64; nelem * ndof * dim];
    for dof in 0..ndof {
        u[dof * dim] = 1.0;
    }
    let mut v = vec![0.0f64; nelem * nqpts];
    basis
        .apply(nelem, false, EvalMode::HDiv, &u, &mut v)
        .unwrap();
    for qpt in 0..nqpts {
        assert!(
            (v[qpt] - 24.0).abs() < TOL,
            "qpt {}: div = {}",
            qpt,
            v[qpt]
        );
    }
}

// ── transpose consistency: forward+transpose = nonzero projection ──────

#[test]
fn tri_rt0_interp_transpose_consistency() {
    let basis = raviart_thomas(ElemTopology::Triangle, 0, 3).unwrap();
    let nelem = 1;
    let ndof = 3;
    let nqpts = 3;
    let dim = 2;

    let mut u_dof = vec![0.0f64; nelem * ndof * dim];
    for dof in 0..ndof {
        u_dof[dof * dim] = (dof + 1) as f64;
    }

    let mut v_qpts = vec![0.0f64; nelem * nqpts * dim];
    basis
        .apply(nelem, false, EvalMode::Interp, &u_dof, &mut v_qpts)
        .unwrap();

    let mut u_dof_back = vec![0.0f64; nelem * ndof * dim];
    basis
        .apply(nelem, true, EvalMode::Interp, &v_qpts, &mut u_dof_back)
        .unwrap();

    for dof in 0..ndof {
        let val = u_dof_back[dof * dim];
        assert!(
            val.abs() > TOL,
            "transpose consistency: dof {dof} is zero"
        );
    }
}

#[test]
fn tet_rt0_interp_transpose_consistency() {
    let basis = raviart_thomas(ElemTopology::Tet, 0, 4).unwrap();
    let nelem = 1;
    let ndof = 4;
    let nqpts = 4;
    let dim = 3;

    let mut u_dof = vec![0.0f64; nelem * ndof * dim];
    for dof in 0..ndof {
        u_dof[dof * dim] = (dof + 1) as f64;
    }

    let mut v_qpts = vec![0.0f64; nelem * nqpts * dim];
    basis
        .apply(nelem, false, EvalMode::Interp, &u_dof, &mut v_qpts)
        .unwrap();

    let mut u_dof_back = vec![0.0f64; nelem * ndof * dim];
    basis
        .apply(nelem, true, EvalMode::Interp, &v_qpts, &mut u_dof_back)
        .unwrap();

    for dof in 0..ndof {
        let val = u_dof_back[dof * dim];
        assert!(val.abs() > TOL, "transpose consistency: dof {dof} is zero");
    }
}

#[test]
fn tri_rt0_hdiv_transpose_consistency() {
    let basis = raviart_thomas(ElemTopology::Triangle, 0, 3).unwrap();
    let nelem = 1;
    let ndof = 3;
    let nqpts = 3;
    let dim = 2;

    let mut u_dof = vec![0.0f64; nelem * ndof * dim];
    for dof in 0..ndof {
        u_dof[dof * dim] = (dof + 1) as f64;
    }

    // forward HDiv
    let mut v_div = vec![0.0f64; nelem * nqpts];
    basis
        .apply(nelem, false, EvalMode::HDiv, &u_dof, &mut v_div)
        .unwrap();

    // transpose HDiv
    let mut u_dof_back = vec![0.0f64; nelem * ndof * dim];
    basis
        .apply(nelem, true, EvalMode::HDiv, &v_div, &mut u_dof_back)
        .unwrap();

    for dof in 0..ndof {
        let val = u_dof_back[dof * dim];
        assert!(
            val.abs() > TOL,
            "hdiv transpose consistency: dof {dof} is zero"
        );
    }
}

// ── RT1 triangle tests ────────────────────────────────────────────────

#[test]
fn construct_tri_rt1() {
    let basis = raviart_thomas(ElemTopology::Triangle, 1, 6).unwrap();
    assert_eq!(basis.dim(), 2);
    assert_eq!(basis.num_dof(), 8);
    assert_eq!(basis.num_qpoints(), 6);
    assert_eq!(basis.num_comp(), 2);
}

#[test]
fn tri_rt1_rt0_subspace() {
    // The RT0 basis should be exactly the first 3 DOFs of the RT1 basis.
    let basis_rt0 = raviart_thomas(ElemTopology::Triangle, 0, 6).unwrap();
    let basis_rt1 = raviart_thomas(ElemTopology::Triangle, 1, 6).unwrap();

    assert_eq!(basis_rt0.num_qpoints(), basis_rt1.num_qpoints());

    for qpt in 0..basis_rt0.num_qpoints() {
        for dof in 0..3 {
            for d in 0..2 {
                let v0 = basis_rt0.interp()[(qpt * 3 + dof) * 2 + d];
                let v1 = basis_rt1.interp()[(qpt * 8 + dof) * 2 + d];
                assert!(
                    (v0 - v1).abs() < TOL,
                    "RT0/RT1 mismatch at qpt={qpt} dof={dof} d={d}: {v0} vs {v1}"
                );
            }
        }
        for dof in 0..3 {
            let d0 = basis_rt0.div_matrix()[qpt * 3 + dof];
            let d1 = basis_rt1.div_matrix()[qpt * 8 + dof];
            assert!(
                (d0 - d1).abs() < TOL,
                "RT0/RT1 div mismatch at qpt={qpt} dof={dof}: {d0} vs {d1}"
            );
        }
    }
}

#[test]
fn tri_rt1_interior_zero_on_boundary() {
    // Interior bubble functions (DOFs 6 and 7) should vanish at all vertices.
    for &(x, y) in &[(0.0, 0.0), (1.0, 0.0), (0.0, 1.0)] {
        let (phi, _div) = tri_rt1(x, y);
        for dof in 6..8 {
            let fx = phi[dof * 2];
            let fy = phi[dof * 2 + 1];
            assert!(
                fx.abs() < TOL && fy.abs() < TOL,
                "Interior DOF {dof} non-zero at vertex ({x},{y}): ({fx},{fy})"
            );
        }
    }
}

#[test]
fn tri_rt1_div_varies() {
    // RT1 divergences should not be constant (unlike RT0 where div=2 for all).
    let (_phi1, div1) = tri_rt1(0.1, 0.2);
    let (_phi2, div2) = tri_rt1(0.7, 0.1);

    // RT0 DOFs 0-2 should still have constant div=2
    for dof in 0..3 {
        assert!(
            (div1[dof] - div2[dof]).abs() < TOL && (div1[dof] - 2.0).abs() < TOL,
            "RT0 DOF {dof}: div should be constant 2, got {} and {}",
            div1[dof],
            div2[dof]
        );
    }

    // RT1 DOFs 3-7 should have spatially varying divergence
    let mut any_varied = false;
    for dof in 3..8 {
        if (div1[dof] - div2[dof]).abs() > TOL {
            any_varied = true;
            break;
        }
    }
    assert!(any_varied, "RT1 higher-order DOF divergences should vary with position");

    // Directly verify analytic divergence formulas at a test point
    let (_phi, div) = tri_rt1(0.3, 0.4);

    // DOF 3 (edge 0 linear): div = 3(x-y) = 3*(-0.1) = -0.3
    assert!((div[3] - 3.0 * (0.3 - 0.4)).abs() < TOL);

    // DOF 4 (edge 1 linear): div = 3(x + 2y - 1) = 3*(0.3 + 0.8 - 1) = 3*0.1 = 0.3
    assert!((div[4] - 3.0 * (0.3 + 0.8 - 1.0)).abs() < TOL);

    // DOF 5 (edge 2 linear): div = 3(1 - 2x - y) = 3*(1 - 0.6 - 0.4) = 0
    assert!((div[5] - 3.0 * (1.0 - 0.6 - 0.4)).abs() < TOL);

    // DOF 6 (interior 1): div = 2x + y - 1 = 0.6 + 0.4 - 1 = 0
    assert!((div[6] - (2.0 * 0.3 + 0.4 - 1.0)).abs() < TOL);

    // DOF 7 (interior 2): div = 1 - x - 2y = 1 - 0.3 - 0.8 = -0.1
    assert!((div[7] - (1.0 - 0.3 - 0.8)).abs() < TOL);
}

#[test]
fn tri_rt1_interp_forward_size() {
    let basis = raviart_thomas(ElemTopology::Triangle, 1, 6).unwrap();
    let nelem = 2;
    let ndof = 8;
    let nqpts = 6;
    let dim = 2;
    let u = vec![0.0f64; nelem * ndof * dim];
    let mut v = vec![0.0f64; nelem * nqpts * dim];
    basis
        .apply(nelem, false, EvalMode::Interp, &u, &mut v)
        .unwrap();
}

#[test]
fn tri_rt1_hdiv_forward_size() {
    let basis = raviart_thomas(ElemTopology::Triangle, 1, 6).unwrap();
    let nelem = 2;
    let ndof = 8;
    let nqpts = 6;
    let dim = 2;
    let u = vec![0.0f64; nelem * ndof * dim];
    let mut v = vec![0.0f64; nelem * nqpts];
    basis
        .apply(nelem, false, EvalMode::HDiv, &u, &mut v)
        .unwrap();
}

#[test]
fn tri_rt1_interp_transpose_consistency() {
    let basis = raviart_thomas(ElemTopology::Triangle, 1, 6).unwrap();
    let nelem = 1;
    let ndof = 8;
    let nqpts = 6;
    let dim = 2;

    let mut u_dof = vec![0.0f64; nelem * ndof * dim];
    for dof in 0..ndof {
        u_dof[dof * dim] = (dof + 1) as f64;
    }

    let mut v_qpts = vec![0.0f64; nelem * nqpts * dim];
    basis
        .apply(nelem, false, EvalMode::Interp, &u_dof, &mut v_qpts)
        .unwrap();

    let mut u_dof_back = vec![0.0f64; nelem * ndof * dim];
    basis
        .apply(nelem, true, EvalMode::Interp, &v_qpts, &mut u_dof_back)
        .unwrap();

    for dof in 0..ndof {
        let val = u_dof_back[dof * dim];
        assert!(
            val.abs() > TOL,
            "RT1 transpose consistency: dof {dof} is zero"
        );
    }
}

// ── RT1 tet tests ────────────────────────────────────────────────────

#[test]
fn construct_tet_rt1() {
    let basis = raviart_thomas(ElemTopology::Tet, 1, 4).unwrap();
    assert_eq!(basis.dim(), 3);
    assert_eq!(basis.num_dof(), 20);
    assert_eq!(basis.num_qpoints(), 4);
    assert_eq!(basis.num_comp(), 3);
}

#[test]
fn tet_rt1_rt0_subspace() {
    // The RT0 basis should be exactly the first 4 DOFs of the RT1 basis.
    let basis_rt0 = raviart_thomas(ElemTopology::Tet, 0, 4).unwrap();
    let basis_rt1 = raviart_thomas(ElemTopology::Tet, 1, 4).unwrap();

    assert_eq!(basis_rt0.num_qpoints(), basis_rt1.num_qpoints());

    for qpt in 0..basis_rt0.num_qpoints() {
        for dof in 0..4 {
            for d in 0..3 {
                let v0 = basis_rt0.interp()[(qpt * 4 + dof) * 3 + d];
                let v1 = basis_rt1.interp()[(qpt * 20 + dof) * 3 + d];
                assert!(
                    (v0 - v1).abs() < TOL,
                    "RT0/RT1 mismatch at qpt={qpt} dof={dof} d={d}: {v0} vs {v1}"
                );
            }
        }
        for dof in 0..4 {
            let d0 = basis_rt0.div_matrix()[qpt * 4 + dof];
            let d1 = basis_rt1.div_matrix()[qpt * 20 + dof];
            assert!(
                (d0 - d1).abs() < TOL,
                "RT0/RT1 div mismatch at qpt={qpt} dof={dof}: {d0} vs {d1}"
            );
        }
    }
}

#[test]
fn tet_rt1_interior_divergence_free() {
    // Interior bubble functions (DOFs 12–19) should have zero divergence
    // at any point since they are curls of Nédélec face functions.
    for &(x, y, z) in &[
        (0.1, 0.2, 0.3),
        (0.25, 0.25, 0.25),
        (0.5, 0.1, 0.1),
    ] {
        let (_phi, div) = tet_rt1(x, y, z);
        for dof in 12..20 {
            assert!(
                div[dof].abs() < TOL,
                "Interior DOF {dof} div={} at ({x},{y},{z}), expected 0",
                div[dof]
            );
        }
    }
}

#[test]
fn tet_rt1_interior_from_nedelec_curl() {
    // The RT1 interior functions are curl of Nedelec face functions.
    // Verify this relationship analytically: for DOF 12 =
    // curl(λ_1 λ_2 ∇λ_3), check that the vector matches the formula.
    let (phi, _div) = tet_rt1(0.3, 0.2, 0.1);
    // DOF 12: (λ_1, −λ_2, 0) = (0.3, -0.2, 0)
    assert!((phi[12 * 3] - 0.3).abs() < TOL);
    assert!((phi[12 * 3 + 1] - (-0.2)).abs() < TOL);
    assert!((phi[12 * 3 + 2] - 0.0).abs() < TOL);
    // DOF 13: (−λ_1, 0, λ_3) = (-0.3, 0, 0.1)
    assert!((phi[13 * 3] - (-0.3)).abs() < TOL);
    assert!((phi[13 * 3 + 1] - 0.0).abs() < TOL);
    assert!((phi[13 * 3 + 2] - 0.1).abs() < TOL);
    // DOF 18: (λ_1, 0, λ_0−λ_1) = (0.3, 0, 0.4-0.3) = (0.3, 0, 0.1)
    assert!((phi[18 * 3] - 0.3).abs() < TOL);
    assert!((phi[18 * 3 + 1] - 0.0).abs() < TOL);
    assert!((phi[18 * 3 + 2] - 0.1).abs() < TOL);
}

#[test]
fn tet_rt1_div_varies() {
    // RT0 DOFs 0-3 should have constant div=6.
    // RT1 DOFs 4-11 should have spatially varying divergence.
    // Interior DOFs 12-19 should have div=0.
    let (_phi1, div1) = tet_rt1(0.1, 0.2, 0.3);
    let (_phi2, div2) = tet_rt1(0.4, 0.1, 0.2);

    for dof in 0..4 {
        assert!(
            (div1[dof] - 6.0).abs() < TOL && (div2[dof] - 6.0).abs() < TOL,
            "RT0 DOF {dof}: div should be constant 6, got {} and {}",
            div1[dof],
            div2[dof]
        );
    }

    let mut any_varied = false;
    for dof in 4..12 {
        if (div1[dof] - div2[dof]).abs() > TOL {
            any_varied = true;
            break;
        }
    }
    assert!(any_varied, "Face moment divergences should vary with position");

    // Verify analytic divergence for linear moments at a test point
    let (_phi, div) = tet_rt1(0.3, 0.2, 0.1);

    // DOF 4: λ_1 ψ_0 → div = 8x = 2.4
    assert!((div[4] - 8.0 * 0.3).abs() < TOL);
    // DOF 5: λ_2 ψ_0 → div = 8y = 1.6
    assert!((div[5] - 8.0 * 0.2).abs() < TOL);
    // DOF 6: λ_0 ψ_1 → div = 8(1-x-y-z) = 8*0.4 = 3.2
    assert!((div[6] - 8.0 * (1.0 - 0.3 - 0.2 - 0.1)).abs() < TOL);
    // DOF 7: λ_2 ψ_1 → div = 8y = 1.6
    assert!((div[7] - 8.0 * 0.2).abs() < TOL);
    // DOF 8: λ_0 ψ_2 → div = 8(1-x-y-z) = 3.2
    assert!((div[8] - 8.0 * (1.0 - 0.3 - 0.2 - 0.1)).abs() < TOL);
    // DOF 9: λ_1 ψ_2 → div = 8x = 2.4
    assert!((div[9] - 8.0 * 0.3).abs() < TOL);
    // DOF 10: λ_0 ψ_3 → div = 8(1-x-y-z) = 3.2
    assert!((div[10] - 8.0 * (1.0 - 0.3 - 0.2 - 0.1)).abs() < TOL);
    // DOF 11: λ_1 ψ_3 → div = 8x = 2.4
    assert!((div[11] - 8.0 * 0.3).abs() < TOL);
}

#[test]
fn tet_rt1_hdiv_forward_rt0_subspace_constant() {
    // With all RT0 DOFs set to 1.0 and all higher DOFs set to 0.0,
    // divergence should be 4*6 = 24 at each qpt.
    let basis = raviart_thomas(ElemTopology::Tet, 1, 4).unwrap();
    let nelem = 1;
    let ndof = 20;
    let nqpts = 4;
    let dim = 3;
    let mut u = vec![0.0f64; nelem * ndof * dim];
    for dof in 0..4 {
        u[dof * dim] = 1.0;
    }
    let mut v = vec![0.0f64; nelem * nqpts];
    basis
        .apply(nelem, false, EvalMode::HDiv, &u, &mut v)
        .unwrap();
    for qpt in 0..nqpts {
        assert!(
            (v[qpt] - 24.0).abs() < TOL,
            "qpt {}: div = {}",
            qpt,
            v[qpt]
        );
    }
}

#[test]
fn tet_rt1_interp_forward_size() {
    let basis = raviart_thomas(ElemTopology::Tet, 1, 4).unwrap();
    let nelem = 2;
    let ndof = 20;
    let nqpts = 4;
    let dim = 3;
    let u = vec![0.0f64; nelem * ndof * dim];
    let mut v = vec![0.0f64; nelem * nqpts * dim];
    basis
        .apply(nelem, false, EvalMode::Interp, &u, &mut v)
        .unwrap();
}

#[test]
fn tet_rt1_hdiv_forward_size() {
    let basis = raviart_thomas(ElemTopology::Tet, 1, 4).unwrap();
    let nelem = 2;
    let ndof = 20;
    let nqpts = 4;
    let dim = 3;
    let u = vec![0.0f64; nelem * ndof * dim];
    let mut v = vec![0.0f64; nelem * nqpts];
    basis
        .apply(nelem, false, EvalMode::HDiv, &u, &mut v)
        .unwrap();
}

#[test]
fn tet_rt1_interp_transpose_consistency() {
    let basis = raviart_thomas(ElemTopology::Tet, 1, 4).unwrap();
    let nelem = 1;
    let ndof = 20;
    let nqpts = 4;
    let dim = 3;

    let mut u_dof = vec![0.0f64; nelem * ndof * dim];
    for dof in 0..ndof {
        u_dof[dof * dim] = (dof + 1) as f64;
    }

    let mut v_qpts = vec![0.0f64; nelem * nqpts * dim];
    basis
        .apply(nelem, false, EvalMode::Interp, &u_dof, &mut v_qpts)
        .unwrap();

    let mut u_dof_back = vec![0.0f64; nelem * ndof * dim];
    basis
        .apply(nelem, true, EvalMode::Interp, &v_qpts, &mut u_dof_back)
        .unwrap();

    for dof in 0..ndof {
        let val = u_dof_back[dof * dim];
        assert!(
            val.abs() > TOL,
            "Tet RT1 transpose consistency: dof {dof} is zero"
        );
    }
}

// ── RT2 triangle tests ────────────────────────────────────────────────

#[test]
fn construct_tri_rt2() {
    let basis = raviart_thomas(ElemTopology::Triangle, 2, 6).unwrap();
    assert_eq!(basis.dim(), 2);
    assert_eq!(basis.num_dof(), 15);
    assert_eq!(basis.num_qpoints(), 6);
    assert_eq!(basis.num_comp(), 2);
}

#[test]
fn tri_rt2_rt1_subspace() {
    // The RT1 basis should be exactly the first 8 DOFs of the RT2 basis.
    let basis_rt1 = raviart_thomas(ElemTopology::Triangle, 1, 6).unwrap();
    let basis_rt2 = raviart_thomas(ElemTopology::Triangle, 2, 6).unwrap();

    assert_eq!(basis_rt1.num_qpoints(), basis_rt2.num_qpoints());

    for qpt in 0..basis_rt1.num_qpoints() {
        for dof in 0..8 {
            for d in 0..2 {
                let v1 = basis_rt1.interp()[(qpt * 8 + dof) * 2 + d];
                let v2 = basis_rt2.interp()[(qpt * 15 + dof) * 2 + d];
                assert!(
                    (v1 - v2).abs() < TOL,
                    "RT1/RT2 mismatch at qpt={qpt} dof={dof} d={d}: {v1} vs {v2}"
                );
            }
        }
        for dof in 0..8 {
            let d1 = basis_rt1.div_matrix()[qpt * 8 + dof];
            let d2 = basis_rt2.div_matrix()[qpt * 15 + dof];
            assert!(
                (d1 - d2).abs() < TOL,
                "RT1/RT2 div mismatch at qpt={qpt} dof={dof}: {d1} vs {d2}"
            );
        }
    }
}

#[test]
fn tri_rt2_interior_zero_at_vertices() {
    // RT2 interior bubble functions (DOFs 11–14) should vanish at all vertices.
    for &(x, y) in &[(0.0, 0.0), (1.0, 0.0), (0.0, 1.0)] {
        let (phi, _div) = tri_rt2(x, y);
        for dof in 11..15 {
            let fx = phi[dof * 2];
            let fy = phi[dof * 2 + 1];
            assert!(
                fx.abs() < TOL && fy.abs() < TOL,
                "RT2 interior DOF {dof} non-zero at vertex ({x},{y}): ({fx},{fy})"
            );
        }
    }
}

#[test]
fn tri_rt2_edge_quadratic_zero_at_midpoint() {
    // RT2 quadratic edge moments (DOFs 8–10) should vanish at edge midpoints
    // where λ_i = λ_j (since (λ_i − λ_j)^2 = 0).
    // Edge mapping:
    //   DOF 8 = edge opposite v0 (connects v1,v2): midpoint (0.5, 0.5)
    //   DOF 9 = edge opposite v1 (connects v0,v2): midpoint (0, 0.5)
    //   DOF 10 = edge opposite v2 (connects v0,v1): midpoint (0.5, 0)
    for &(x, y, dof_bubble) in &[
        (0.5, 0.5, 8),  // edge 0 midpoint
        (0.0, 0.5, 9),  // edge 1 midpoint
        (0.5, 0.0, 10), // edge 2 midpoint
    ] {
        let (phi, _div) = tri_rt2(x, y);
        let fx = phi[dof_bubble * 2];
        let fy = phi[dof_bubble * 2 + 1];
        assert!(
            fx.abs() < TOL && fy.abs() < TOL,
            "RT2 edge quadratic DOF {dof_bubble} non-zero at midpoint ({x},{y}): ({fx},{fy})"
        );
    }
}

#[test]
fn tri_rt2_div_formulas() {
    // Verify analytic divergence formulas at a test point.
    let x = 0.3;
    let y = 0.4;
    let lam0 = 1.0 - x - y; // 0.3
    let lam1 = x; // 0.3
    let lam2 = y; // 0.4

    let (_phi, div) = tri_rt2(x, y);

    // RT0 DOFs 0-2: div = 2
    for dof in 0..3 {
        assert!((div[dof] - 2.0).abs() < TOL,
            "RT0 DOF {dof}: div should be 2, got {}", div[dof]);
    }

    // DOF 3 (edge 0 linear): div = 3(λ_1 − λ_2) = 3*(-0.1) = -0.3
    assert!((div[3] - 3.0 * (lam1 - lam2)).abs() < TOL);
    // DOF 4 (edge 1 linear): div = 3(λ_2 − λ_0) = 3*(0.1) = 0.3
    assert!((div[4] - 3.0 * (lam2 - lam0)).abs() < TOL);
    // DOF 5 (edge 2 linear): div = 3(λ_0 − λ_1) = 3*(0) = 0
    assert!((div[5] - 3.0 * (lam0 - lam1)).abs() < TOL);

    // DOF 6 (interior 1): div = 2x + y − 1 = 0.6 + 0.4 - 1 = 0
    assert!((div[6] - (2.0 * x + y - 1.0)).abs() < TOL);
    // DOF 7 (interior 2): div = 1 − x − 2y = 1 - 0.3 - 0.8 = -0.1
    assert!((div[7] - (1.0 - x - 2.0 * y)).abs() < TOL);

    // DOF 8 (edge 0 quadratic): div = 4(λ_1−λ_2)^2 = 4*0.01 = 0.04
    assert!((div[8] - 4.0 * (lam1 - lam2) * (lam1 - lam2)).abs() < TOL);
    // DOF 9 (edge 1 quadratic): div = 4(λ_0−λ_2)^2 = 4*0.01 = 0.04
    assert!((div[9] - 4.0 * (lam0 - lam2) * (lam0 - lam2)).abs() < TOL);
    // DOF 10 (edge 2 quadratic): div = 4(λ_0−λ_1)^2 = 4*0 = 0
    assert!((div[10] - 4.0 * (lam0 - lam1) * (lam0 - lam1)).abs() < TOL);

    // DOF 11: div = λ_0(λ_2 − λ_1) = 0.3*(0.4-0.3) = 0.03
    assert!((div[11] - lam0 * (lam2 - lam1)).abs() < TOL);
    // DOF 12: div = λ_0 λ_1 − λ_1 λ_2 = 0.09 - 0.12 = -0.03
    assert!((div[12] - (lam0 * lam1 - lam1 * lam2)).abs() < TOL);
    // DOF 13: div = 2λ_0 λ_1 − λ_0^2 = 2*0.09 - 0.09 = 0.09
    assert!((div[13] - (2.0 * lam0 * lam1 - lam0 * lam0)).abs() < TOL);
    // DOF 14: div = λ_1^2 − 2λ_0 λ_1 = 0.09 - 0.18 = -0.09
    assert!((div[14] - (lam1 * lam1 - 2.0 * lam0 * lam1)).abs() < TOL);
}

#[test]
fn tri_rt2_interp_forward_size() {
    let basis = raviart_thomas(ElemTopology::Triangle, 2, 6).unwrap();
    let nelem = 2;
    let ndof = 15;
    let nqpts = 6;
    let dim = 2;
    let u = vec![0.0f64; nelem * ndof * dim];
    let mut v = vec![0.0f64; nelem * nqpts * dim];
    basis
        .apply(nelem, false, EvalMode::Interp, &u, &mut v)
        .unwrap();
}

#[test]
fn tri_rt2_hdiv_forward_size() {
    let basis = raviart_thomas(ElemTopology::Triangle, 2, 6).unwrap();
    let nelem = 2;
    let ndof = 15;
    let nqpts = 6;
    let dim = 2;
    let u = vec![0.0f64; nelem * ndof * dim];
    let mut v = vec![0.0f64; nelem * nqpts];
    basis
        .apply(nelem, false, EvalMode::HDiv, &u, &mut v)
        .unwrap();
}

#[test]
fn tri_rt2_interp_transpose_consistency() {
    let basis = raviart_thomas(ElemTopology::Triangle, 2, 6).unwrap();
    let nelem = 1;
    let ndof = 15;
    let nqpts = 6;
    let dim = 2;

    let mut u_dof = vec![0.0f64; nelem * ndof * dim];
    for dof in 0..ndof {
        u_dof[dof * dim] = (dof + 1) as f64;
    }

    let mut v_qpts = vec![0.0f64; nelem * nqpts * dim];
    basis
        .apply(nelem, false, EvalMode::Interp, &u_dof, &mut v_qpts)
        .unwrap();

    let mut u_dof_back = vec![0.0f64; nelem * ndof * dim];
    basis
        .apply(nelem, true, EvalMode::Interp, &v_qpts, &mut u_dof_back)
        .unwrap();

    for dof in 0..ndof {
        let val = u_dof_back[dof * dim];
        assert!(
            val.abs() > TOL,
            "RT2 transpose consistency: dof {dof} is zero"
        );
    }
}

#[test]
fn tri_rt2_hdiv_transpose_consistency() {
    let basis = raviart_thomas(ElemTopology::Triangle, 2, 6).unwrap();
    let nelem = 1;
    let ndof = 15;
    let nqpts = 6;
    let dim = 2;

    let mut u_dof = vec![0.0f64; nelem * ndof * dim];
    for dof in 0..ndof {
        u_dof[dof * dim] = (dof + 1) as f64;
    }

    let mut v_div = vec![0.0f64; nelem * nqpts];
    basis
        .apply(nelem, false, EvalMode::HDiv, &u_dof, &mut v_div)
        .unwrap();

    let mut u_dof_back = vec![0.0f64; nelem * ndof * dim];
    basis
        .apply(nelem, true, EvalMode::HDiv, &v_div, &mut u_dof_back)
        .unwrap();

    for dof in 0..ndof {
        let val = u_dof_back[dof * dim];
        assert!(
            val.abs() > TOL,
            "RT2 HDiv transpose consistency: dof {dof} is zero"
        );
    }
}
