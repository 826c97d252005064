//! Nodal bases on the prism.

use reed::basis::BasisTrait;
use reed::cpu::basis_prism::PrismBasis;
use reed::enums::EvalMode;
use reed::error::ReedResult;
use reed::scalar::{Real, Scalar};

/// Double-precision numbers.
#[derive(Clone, Copy, Debug, PartialEq, PartialOrd)]
struct F64(f64);

impl Real for F64 {
    fn zero() -> Self {
        F64(0.0)
    }
    fn one() -> Self {
        F64(1.0)
    }
    fn from_int(n: i64) -> Self {
        F64(n as f64)
    }
    fn pi() -> Self {
        F64(std::f64::consts::PI)
    }
    fn epsilon() -> Self {
        F64(f64::EPSILON)
    }
    fn add(self, rhs: Self) -> Self {
        F64(self.0 + rhs.0)
    }
    fn sub(self, rhs: Self) -> Self {
        F64(self.0 - rhs.0)
    }
    fn mul(self, rhs: Self) -> Self {
        F64(self.0 * rhs.0)
    }
    fn div(self, rhs: Self) -> Self {
        F64(self.0 / rhs.0)
    }
    fn neg(self) -> Self {
        F64(-self.0)
    }
    fn abs(self) -> Self {
        F64(self.0.abs())
    }
    fn sqrt(self) -> Self {
        F64(self.0.sqrt())
    }
    fn cos(self) -> Self {
        F64(self.0.cos())
    }
    fn lt(self, rhs: Self) -> bool {
        self.0 < rhs.0
    }
    fn le(self, rhs: Self) -> bool {
        self.0 <= rhs.0
    }
    fn eq_value(self, rhs: Self) -> bool {
        self.0 == rhs.0
    }
    fn to_text(self) -> String {
        format!("{}", self.0)
    }
}


impl Scalar for F64 {
    type Work = F64;

    fn from_work(w: F64) -> Option<Self> {
        Some(w)
    }
    fn to_work(self) -> F64 {
        self
    }
}

fn wrap(x: &[f64]) -> Vec<F64> {
    x.iter().map(|v| F64(*v)).collect()
}

fn plain(x: &[F64]) -> Vec<f64> {
    x.iter().map(|v| v.0).collect()
}

/// A basis over plain numbers.
struct Plain<B>(B);

impl<B: BasisTrait<F64>> Plain<B> {
    fn dim(&self) -> usize {
        self.0.dim()
    }
    fn num_dof(&self) -> usize {
        self.0.num_dof()
    }
    fn num_qpoints(&self) -> usize {
        self.0.num_qpoints()
    }
    fn num_comp(&self) -> usize {
        self.0.num_comp()
    }
    fn q_weights(&self) -> Vec<f64> {
        plain(self.0.q_weights())
    }
    fn q_ref(&self) -> Vec<f64> {
        plain(self.0.q_ref())
    }
    fn apply(
        &self,
        num_elem: usize,
        transpose: bool,
        mode: EvalMode,
        u: &[f64],
        v: &mut [f64],
    ) -> ReedResult<()> {
        let mut w = wrap(v);
        let r = self.0.apply(num_elem, transpose, mode, &wrap(u), &mut w);
        for (x, y) in v.iter_mut().zip(w.iter()) {
            *x = y.0;
        }
        r
    }
}

fn prism(
    tri_poly: usize,
    line_p: usize,
    tri_q: usize,
    line_q: usize,
    ncomp: usize,
) -> ReedResult<Plain<PrismBasis<F64>>> {
    PrismBasis::new(tri_poly, line_p, tri_q, line_q, ncomp).map(Plain)
}

impl Plain<PrismBasis<F64>> {
    fn interp_val(&self, qpt: usize, dof: usize) -> f64 {
        self.0.interp_val(qpt, dof).0
    }
}

const TOL: f64 = 1e-12;

// ── partition-of-unity ────────────────────────────────────────────────

#[test]
fn prism_p1_partition_of_unity() {
    // P1 in triangle, P1 on line -> 3 * 2 = 6 DOFs
    let basis = prism(1, 1, 3, 2, 1).unwrap();
    assert_eq!(basis.num_dof(), 6);
    // Sum of interpolation values should be 1 at every qpt.
    for qpt in 0..basis.num_qpoints() {
        let mut sum = 0.0_f64;
        for dof in 0..basis.num_dof() {
            sum += basis.interp_val(qpt, dof);
        }
        assert!((sum - 1.0).abs() < TOL, "PoU failed at qpt {qpt}: sum={sum}");
    }
}

#[test]
fn prism_p2_partition_of_unity() {
    // P2 triangle (6 DOFs) × P2 line (3 nodes via p=3 quadratic) = 18 DOFs
    let basis = prism(2, 3, 6, 3, 1).unwrap();
    assert_eq!(basis.num_dof(), 18);
    for qpt in 0..basis.num_qpoints() {
        let mut sum = 0.0_f64;
        for dof in 0..basis.num_dof() {
            sum += basis.interp_val(qpt, dof);
        }
        assert!((sum - 1.0).abs() < TOL, "PoU failed at qpt {qpt}: sum={sum}");
    }
}

// ── DOF counts ────────────────────────────────────────────────────────

#[test]
fn prism_dof_counts() {
    // P1 tri (3 DOFs) × P1 line (2 nodes via p=2 linear) = 6
    let b = prism(1, 2, 3, 2, 1).unwrap();
    assert_eq!(b.num_dof(), 6);
    assert_eq!(b.dim(), 3);

    // P2 tri (6 DOFs) × P2 line (3 nodes via p=3 quadratic) = 18
    let b = prism(2, 3, 6, 3, 1).unwrap();
    assert_eq!(b.num_dof(), 18);

    // P1 tri (3 DOFs) × P2 line (3 nodes via p=3 quadratic) = 9
    let b = prism(1, 3, 3, 3, 1).unwrap();
    assert_eq!(b.num_dof(), 9);
}

// ── quadrature weight sums ────────────────────────────────────────────

#[test]
fn prism_weight_sums_to_volume() {
    // Reference prism volume = area(triangle) * length(line) = 0.5 * 2 = 1.0
    for (tri_p, line_p, tri_q, line_q) in [
        (1usize, 1usize, 3usize, 2usize),
        (2, 2, 6, 3),
        (1, 2, 4, 4),
    ] {
        let basis = prism(tri_p, line_p, tri_q, line_q, 1).unwrap();
        let mut v = vec![0.0_f64; basis.num_qpoints()];
        basis.apply(1, false, EvalMode::Weight, &[], &mut v).unwrap();
        let sum: f64 = v.iter().sum();
        assert!(
            (sum - 1.0).abs() < 1e-12,
            "Prism (tri_p={tri_p}, line_p={line_p}, tri_q={tri_q}, line_q={line_q}): \
             weight sum={sum}, expected 1.0"
        );
    }
}

// ── constant interpolation ─────────────────────────────────────────────

#[test]
fn prism_p1_interp_constant() {
    let basis = prism(1, 1, 3, 2, 1).unwrap();
    // u = 2.5 at all DOFs
    let c = 2.5_f64;
    let u = vec![c; basis.num_dof()];
    let mut v = vec![0.0_f64; basis.num_qpoints()];
    basis.apply(1, false, EvalMode::Interp, &u, &mut v).unwrap();
    for (i, &val) in v.iter().enumerate() {
        assert!((val - c).abs() < TOL, "qpt {i}: got {val}, expected {c}");
    }
}

// ── linear interpolation ───────────────────────────────────────────────

#[test]
fn prism_p1_interp_linear_r() {
    // u = r at DOF nodes. r varies from 0 to 1 on the triangle.
    // Triangle nodes: (0,0) -> r=0, (1,0) -> r=1, (0,1) -> r=0
    let basis = prism(1, 1, 3, 2, 1).unwrap();
    let tri_ndof = 3;
    let line_ndof = 2;
    let num_dof = tri_ndof * line_ndof;
    let mut u = vec![0.0_f64; num_dof];
    // Triangle node r-values at vertices: 0, 1, 0
    let tri_r = [0.0_f64, 1.0, 0.0];
    for dt in 0..tri_ndof {
        for dl in 0..line_ndof {
            u[dt * line_ndof + dl] = tri_r[dt];
        }
    }
    let mut v = vec![0.0_f64; basis.num_qpoints()];
    basis.apply(1, false, EvalMode::Interp, &u, &mut v).unwrap();
    for (iq, &val) in v.iter().enumerate() {
        let r = basis.q_ref()[iq * 3];
        assert!((val - r).abs() < TOL, "qpt {iq}: got {val}, expected {r}");
    }
}

#[test]
fn prism_p1_interp_linear_t() {
    // u = t at DOF nodes. t is independent of triangle node.
    // Line nodes: t = -1, 1
    let basis = prism(1, 1, 3, 2, 1).unwrap();
    let tri_ndof = 3;
    let line_ndof = 2;
    let num_dof = tri_ndof * line_ndof;
    let mut u = vec![0.0_f64; num_dof];
    let line_t = [-1.0_f64, 1.0];
    for dt in 0..tri_ndof {
        for dl in 0..line_ndof {
            u[dt * line_ndof + dl] = line_t[dl];
        }
    }
    let mut v = vec![0.0_f64; basis.num_qpoints()];
    basis.apply(1, false, EvalMode::Interp, &u, &mut v).unwrap();
    for (iq, &val) in v.iter().enumerate() {
        let t = basis.q_ref()[iq * 3 + 2];
        assert!((val - t).abs() < TOL, "qpt {iq}: got {val}, expected {t}");
    }
}

// ── gradient of linear field ───────────────────────────────────────────

#[test]
fn prism_p1_grad_r() {
    // u = r: ∂/∂r = 1, ∂/∂s = 0, ∂/∂t = 0
    let basis = prism(1, 1, 3, 2, 1).unwrap();
    let tri_ndof = 3;
    let line_ndof = 2;
    let num_dof = tri_ndof * line_ndof;
    let mut u = vec![0.0_f64; num_dof];
    let tri_r = [0.0_f64, 1.0, 0.0];
    for dt in 0..tri_ndof {
        for dl in 0..line_ndof {
            u[dt * line_ndof + dl] = tri_r[dt];
        }
    }
    let mut grad_out = vec![0.0_f64; basis.num_qpoints() * 3];
    basis.apply(1, false, EvalMode::Grad, &u, &mut grad_out).unwrap();
    for iq in 0..basis.num_qpoints() {
        let gr = grad_out[iq * 3];
        let gs = grad_out[iq * 3 + 1];
        let gt = grad_out[iq * 3 + 2];
        assert!((gr - 1.0).abs() < TOL, "qpt {iq} ∂r: got {gr}, expected 1");
        assert!(gs.abs() < TOL, "qpt {iq} ∂s: got {gs}, expected 0");
        assert!(gt.abs() < TOL, "qpt {iq} ∂t: got {gt}, expected 0");
    }
}

#[test]
fn prism_p1_grad_s() {
    // u = s: ∂/∂r = 0, ∂/∂s = 1, ∂/∂t = 0
    let basis = prism(1, 1, 3, 2, 1).unwrap();
    let tri_ndof = 3;
    let line_ndof = 2;
    let num_dof = tri_ndof * line_ndof;
    let mut u = vec![0.0_f64; num_dof];
    let tri_s = [0.0_f64, 0.0, 1.0];
    for dt in 0..tri_ndof {
        for dl in 0..line_ndof {
            u[dt * line_ndof + dl] = tri_s[dt];
        }
    }
    let mut grad_out = vec![0.0_f64; basis.num_qpoints() * 3];
    basis.apply(1, false, EvalMode::Grad, &u, &mut grad_out).unwrap();
    for iq in 0..basis.num_qpoints() {
        let gr = grad_out[iq * 3];
        let gs = grad_out[iq * 3 + 1];
        let gt = grad_out[iq * 3 + 2];
        assert!(gr.abs() < TOL, "qpt {iq} ∂r: got {gr}, expected 0");
        assert!((gs - 1.0).abs() < TOL, "qpt {iq} ∂s: got {gs}, expected 1");
        assert!(gt.abs() < TOL, "qpt {iq} ∂t: got {gt}, expected 0");
    }
}

#[test]
fn prism_p1_grad_t() {
    // u = t: ∂/∂r = 0, ∂/∂s = 0, ∂/∂t = 1
    let basis = prism(1, 1, 3, 2, 1).unwrap();
    let tri_ndof = 3;
    let line_ndof = 2;
    let num_dof = tri_ndof * line_ndof;
    let mut u = vec![0.0_f64; num_dof];
    let line_t = [-1.0_f64, 1.0];
    for dt in 0..tri_ndof {
        for dl in 0..line_ndof {
            u[dt * line_ndof + dl] = line_t[dl];
        }
    }
    let mut grad_out = vec![0.0_f64; basis.num_qpoints() * 3];
    basis.apply(1, false, EvalMode::Grad, &u, &mut grad_out).unwrap();
    for iq in 0..basis.num_qpoints() {
        let gr = grad_out[iq * 3];
        let gs = grad_out[iq * 3 + 1];
        let gt = grad_out[iq * 3 + 2];
        assert!(gr.abs() < TOL, "qpt {iq} ∂r: got {gr}, expected 0");
        assert!(gs.abs() < TOL, "qpt {iq} ∂s: got {gs}, expected 0");
        assert!((gt - 1.0).abs() < TOL, "qpt {iq} ∂t: got {gt}, expected 1");
    }
}

// ── linear field in 3D ─────────────────────────────────────────────────

#[test]
fn prism_p1_interp_linear_3d() {
    // u = 2r + 3s - 0.5t + 1.7
    let basis = prism(1, 1, 3, 2, 1).unwrap();
    let tri_ndof = 3;
    let line_ndof = 2;
    let num_dof = tri_ndof * line_ndof;
    let mut u = vec![0.0_f64; num_dof];
    let tri_r = [0.0_f64, 1.0, 0.0];
    let tri_s = [0.0_f64, 0.0, 1.0];
    let line_t = [-1.0_f64, 1.0];
    for dt in 0..tri_ndof {
        for dl in 0..line_ndof {
            let r_val = tri_r[dt];
            let s_val = tri_s[dt];
            let t_val = line_t[dl];
            u[dt * line_ndof + dl] = 2.0 * r_val + 3.0 * s_val - 0.5 * t_val + 1.7;
        }
    }
    let mut v = vec![0.0_f64; basis.num_qpoints()];
    basis.apply(1, false, EvalMode::Interp, &u, &mut v).unwrap();
    for (iq, &val) in v.iter().enumerate() {
        let r = basis.q_ref()[iq * 3];
        let s = basis.q_ref()[iq * 3 + 1];
        let t = basis.q_ref()[iq * 3 + 2];
        let expected = 2.0 * r + 3.0 * s - 0.5 * t + 1.7;
        assert!((val - expected).abs() < TOL, "qpt {iq}: got {val}, expected {expected}");
    }
}

#[test]
fn prism_p1_grad_linear_3d() {
    // u = 2r + 3s - 0.5t + 1.7 -> grad = (2, 3, -0.5)
    let basis = prism(1, 1, 3, 2, 1).unwrap();
    let tri_ndof = 3;
    let line_ndof = 2;
    let num_dof = tri_ndof * line_ndof;
    let mut u = vec![0.0_f64; num_dof];
    let tri_r = [0.0_f64, 1.0, 0.0];
    let tri_s = [0.0_f64, 0.0, 1.0];
    let line_t = [-1.0_f64, 1.0];
    for dt in 0..tri_ndof {
        for dl in 0..line_ndof {
            let r_val = tri_r[dt];
            let s_val = tri_s[dt];
            let t_val = line_t[dl];
            u[dt * line_ndof + dl] = 2.0 * r_val + 3.0 * s_val - 0.5 * t_val + 1.7;
        }
    }
    let mut grad_out = vec![0.0_f64; basis.num_qpoints() * 3];
    basis.apply(1, false, EvalMode::Grad, &u, &mut grad_out).unwrap();
    for iq in 0..basis.num_qpoints() {
        let gr = grad_out[iq * 3];
        let gs = grad_out[iq * 3 + 1];
        let gt = grad_out[iq * 3 + 2];
        assert!((gr - 2.0).abs() < TOL, "qpt {iq} ∂r: got {gr}, expected 2");
        assert!((gs - 3.0).abs() < TOL, "qpt {iq} ∂s: got {gs}, expected 3");
        assert!((gt + 0.5).abs() < TOL, "qpt {iq} ∂t: got {gt}, expected -0.5");
    }
}

// ── adjoint identities ─────────────────────────────────────────────────

#[test]
fn prism_div_adjoint_identity() {
    let basis = prism(1, 1, 3, 2, 3).unwrap();
    assert_eq!(basis.dim(), 3);
    assert_eq!(basis.num_comp(), 3);
    let nd = basis.num_dof() * basis.num_comp();
    let nq = basis.num_qpoints();
    let u: Vec<f64> = (0..nd).map(|i| 0.07 * i as f64 - 0.15).collect();
    let w_div: Vec<f64> = (0..nq).map(|i| 0.03 * i as f64 + 0.5).collect();

    let mut div_u = vec![0.0_f64; nq];
    basis.apply(1, false, EvalMode::Div, &u, &mut div_u).unwrap();
    let mut dt_w = vec![0.0_f64; nd];
    basis.apply(1, true, EvalMode::Div, &w_div, &mut dt_w).unwrap();
    let lhs: f64 = u.iter().zip(dt_w.iter()).map(|(a, b)| a * b).sum();
    let rhs: f64 = div_u.iter().zip(w_div.iter()).map(|(a, b)| a * b).sum();
    assert!((lhs - rhs).abs() < 1e-10 * (1.0 + lhs.abs()));
}

#[test]
fn prism_curl_adjoint_identity() {
    let basis = prism(1, 2, 3, 3, 3).unwrap();
    assert_eq!(basis.dim(), 3);
    let nd = basis.num_dof() * basis.num_comp();
    let nq = basis.num_qpoints();
    let u: Vec<f64> = (0..nd).map(|i| 0.05 * i as f64 - 0.2).collect();
    let w_curl: Vec<f64> = (0..nq * 3).map(|i| 0.02 * i as f64 + 0.12).collect();

    let mut curl_u = vec![0.0_f64; nq * 3];
    basis.apply(1, false, EvalMode::Curl, &u, &mut curl_u).unwrap();
    let mut ct_w = vec![0.0_f64; nd];
    basis.apply(1, true, EvalMode::Curl, &w_curl, &mut ct_w).unwrap();
    let lhs: f64 = u.iter().zip(ct_w.iter()).map(|(a, b)| a * b).sum();
    let rhs: f64 = curl_u.iter().zip(w_curl.iter()).map(|(a, b)| a * b).sum();
    assert!((lhs - rhs).abs() < 1e-9 * (1.0 + lhs.abs()));
}
