//! Nodal bases on the pyramid.

use reed::basis::BasisTrait;
use reed::cpu::basis_lagrange::LagrangeBasis;
use reed::cpu::basis_pyramid::PyramidBasis;
use reed::enums::{EvalMode, QuadMode};
use reed::error::ReedResult;
use reed::scalar::{Real, Scalar};

/// Double-precision numbers.
#[derive(Clone, Copy, Debug, PartialEq, PartialOrd)]
struct F64(f64);

impl Real for F64 {
    fn zero() -> Self {
        F64(0.0)
    }
    fn one() -> Self {
        F64(1.0)
    }
    fn from_int(n: i64) -> Self {
        F64(n as f64)
    }
    fn pi() -> Self {
        F64(std::f64::consts::PI)
    }
    fn epsilon() -> Self {
        F64(f64::EPSILON)
    }
    fn add(self, rhs: Self) -> Self {
        F64(self.0 + rhs.0)
    }
    fn sub(self, rhs: Self) -> Self {
        F64(self.0 - rhs.0)
    }
    fn mul(self, rhs: Self) -> Self {
        F64(self.0 * rhs.0)
    }
    fn div(self, rhs: Self) -> Self {
        F64(self.0 / rhs.0)
    }
    fn neg(self) -> Self {
        F64(-self.0)
    }
    fn abs(self) -> Self {
        F64(self.0.abs())
    }
    fn sqrt(self) -> Self {
        F64(self.0.sqrt())
    }
    fn cos(self) -> Self {
        F64(self.0.cos())
    }
    fn lt(self, rhs: Self) -> bool {
        self.0 < rhs.0
    }
    fn le(self, rhs: Self) -> bool {
        self.0 <= rhs.0
    }
    fn eq_value(self, rhs: Self) -> bool {
        self.0 == rhs.0
    }
    fn to_text(self) -> String {
        format!("{}", self.0)
    }
}


impl Scalar for F64 {
    type Work = F64;

    fn from_work(w: F64) -> Option<Self> {
        Some(w)
    }
    fn to_work(self) -> F64 {
        self
    }
}

fn wrap(x: &[f64]) -> Vec<F64> {
    x.iter().map(|v| F64(*v)).collect()
}

fn plain(x: &[F64]) -> Vec<f64> {
    x.iter().map(|v| v.0).collect()
}

/// A basis over plain numbers.
struct Plain<B>(B);

impl<B: BasisTrait<F64>> Plain<B> {
    fn dim(&self) -> usize {
        self.0.dim()
    }
    fn num_dof(&self) -> usize {
        self.0.num_dof()
    }
    fn num_qpoints(&self) -> usize {
        self.0.num_qpoints()
    }
    fn num_comp(&self) -> usize {
        self.0.num_comp()
    }
    fn q_weights(&self) -> Vec<f64> {
        plain(self.0.q_weights())
    }
    fn q_ref(&self) -> Vec<f64> {
        plain(self.0.q_ref())
    }
    fn apply(
        &self,
        num_elem: usize,
        transpose: bool,
        mode: EvalMode,
        u: &[f64],
        v: &mut [f64],
    ) -> ReedResult<()> {
        let mut w = wrap(v);
        let r = self.0.apply(num_elem, transpose, mode, &wrap(u), &mut w);
        for (x, y) in v.iter_mut().zip(w.iter()) {
            *x = y.0;
        }
        r
    }
}

fn lagrange(
    dim: usize,
    ncomp: usize,
    p: usize,
    q: usize,
    qmode: QuadMode,
) -> ReedResult<Plain<LagrangeBasis<F64>>> {
    LagrangeBasis::new(dim, ncomp, p, q, qmode).map(Plain)
}

fn pyramid(
    p: usize,
    q: usize,
    qmode: QuadMode,
    ncomp: usize,
) -> ReedResult<Plain<PyramidBasis<F64>>> {
    PyramidBasis::new(p, q, qmode, ncomp).map(Plain)
}

const TOL: f64 = 1e-11;

// ── DOF counts ────────────────────────────────────────────────────────

#[test]
fn pyramid_dof_counts() {
    let b = pyramid(2, 2, QuadMode::Gauss, 1).unwrap();
    assert_eq!(b.dim(), 3);
    // p=2 -> 2^3 = 8 DOFs on the parent hex
    assert_eq!(b.num_dof(), 8);
    // q=2 -> 2^3 = 8 qpts
    assert_eq!(b.num_qpoints(), 8);
}

// ── quadrature weight sums ────────────────────────────────────────────

#[test]
fn pyramid_weight_sums_to_volume() {
    // Reference pyramid: base [-1,1]^2 at t=-1, apex (0,0,1).
    // Volume = (1/3) * base_area * height = (1/3) * 4 * 2 = 8/3
    let expected = 8.0 / 3.0;
    for q in [2usize, 3, 4] {
        let basis = pyramid(2, q, QuadMode::Gauss, 1).unwrap();
        let mut v = vec![0.0_f64; basis.num_qpoints()];
        basis.apply(1, false, EvalMode::Weight, &[], &mut v).unwrap();
        let sum: f64 = v.iter().sum();
        assert!(
            (sum - expected).abs() < 1e-10,
            "Pyramid q={q}: weight sum={sum}, expected {expected}"
        );
    }
}

// ── apex singularity check ────────────────────────────────────────────

#[test]
fn pyramid_gauss_qref_no_apex() {
    // Gauss quadrature points should all have ζ < 1 (no apex qpts)
    let basis = pyramid(2, 3, QuadMode::Gauss, 1).unwrap();
    for iq in 0..basis.num_qpoints() {
        let t = basis.q_ref()[iq * 3 + 2];
        assert!(
            t < 1.0 - 1e-14,
            "Gauss qpt {iq} at t={t} is at or near apex (should be avoided)"
        );
    }
}

#[test]
fn pyramid_lobatto_rejected() {
    // GaussLobatto includes ζ=1 (apex) -> singular Jacobian -> should error
    let result = pyramid(2, 3, QuadMode::GaussLobatto, 1);
    assert!(
        result.is_err(),
        "Pyramid with Gauss-Lobatto quadrature should be rejected"
    );
}

// ── constant interpolation ─────────────────────────────────────────────

#[test]
fn pyramid_interp_constant() {
    let basis = pyramid(2, 2, QuadMode::Gauss, 1).unwrap();
    let c = 3.5_f64;
    let u = vec![c; basis.num_dof()];
    let mut v = vec![0.0_f64; basis.num_qpoints()];
    basis.apply(1, false, EvalMode::Interp, &u, &mut v).unwrap();
    for (i, &val) in v.iter().enumerate() {
        assert!((val - c).abs() < TOL, "qpt {i}: got {val}, expected {c}");
    }
}

// ── linear interpolation ───────────────────────────────────────────────

#[test]
fn pyramid_interp_linear_r() {
    // On the hex, u = ξ. In pyramid space, r = (1+ξ)(1-ζ)/2 - 1.
    // At a given pyramid qpt, the interpolated value should be linear in r
    // when u varies only with ξ.
    let basis = pyramid(2, 2, QuadMode::Gauss, 1).unwrap();
    // p=2: hex nodes are [-1, 1] at each axis
    let mut u = vec![0.0_f64; basis.num_dof()];
    // Hex DOFs use lexicographic ordering: z major, y middle, x minor.
    // p=2: 2 nodes per axis -> 8 DOFs.
    // DOF (px, py, pz): px={-1,1}, py={-1,1}, pz={-1,1}
    for pz in 0..2 {
        for py in 0..2 {
            for px in 0..2 {
                let xi_val = if px == 0 { -1.0_f64 } else { 1.0 };
                let dof = pz * 4 + py * 2 + px;
                u[dof] = xi_val;
            }
        }
    }
    let mut v = vec![0.0_f64; basis.num_qpoints()];
    basis.apply(1, false, EvalMode::Interp, &u, &mut v).unwrap();
    // At each qpt, the hex qpt has ξ coordinate. The value should equal ξ.
    let hex_basis = lagrange(3, 1, 2, 2, QuadMode::Gauss).unwrap();
    let mut hex_v = vec![0.0_f64; hex_basis.num_qpoints()];
    hex_basis.apply(1, false, EvalMode::Interp, &u, &mut hex_v).unwrap();
    for (iq, &val) in v.iter().enumerate() {
        let expected = hex_v[iq]; // should be the ξ coordinate
        assert!(
            (val - expected).abs() < TOL,
            "qpt {iq}: got {val}, expected {expected}"
        );
    }
}

#[test]
fn pyramid_interp_linear_t() {
    // u = ζ on hex nodes. On pyramid, t = ζ.
    let basis = pyramid(2, 2, QuadMode::Gauss, 1).unwrap();
    let mut u = vec![0.0_f64; basis.num_dof()];
    for pz in 0..2 {
        for py in 0..2 {
            for px in 0..2 {
                let zeta_val = if pz == 0 { -1.0_f64 } else { 1.0 };
                let dof = pz * 4 + py * 2 + px;
                u[dof] = zeta_val;
            }
        }
    }
    let mut v = vec![0.0_f64; basis.num_qpoints()];
    basis.apply(1, false, EvalMode::Interp, &u, &mut v).unwrap();
    let hex_basis = lagrange(3, 1, 2, 2, QuadMode::Gauss).unwrap();
    let mut hex_v = vec![0.0_f64; hex_basis.num_qpoints()];
    hex_basis.apply(1, false, EvalMode::Interp, &u, &mut hex_v).unwrap();
    for (iq, &val) in v.iter().enumerate() {
        let expected = hex_v[iq]; // t = ζ
        assert!(
            (val - expected).abs() < TOL,
            "qpt {iq}: got {val}, expected {expected}"
        );
    }
}

// ── gradient transformation ────────────────────────────────────────────

#[test]
fn pyramid_grad_xi() {
    // f = ξ (linear in hex coordinates).
    // In hex space: ∇_hex f = (1, 0, 0).
    // In pyramid space: ∇_pyr f = J^{-T} * (1, 0, 0)^T
    //   gr = 2/(1-ζ), gs = 0, gt = ξ/(1-ζ)
    let basis = pyramid(2, 2, QuadMode::Gauss, 1).unwrap();
    let mut u = vec![0.0_f64; basis.num_dof()];
    let hex_basis = lagrange(3, 1, 2, 2, QuadMode::Gauss).unwrap();
    for pz in 0..2 {
        for py in 0..2 {
            for px in 0..2 {
                let xi = if px == 0 { -1.0_f64 } else { 1.0 };
                let dof = pz * 4 + py * 2 + px;
                u[dof] = xi;
            }
        }
    }
    let mut grad_out = vec![0.0_f64; basis.num_qpoints() * 3];
    basis.apply(1, false, EvalMode::Grad, &u, &mut grad_out).unwrap();
    for iq in 0..basis.num_qpoints() {
        let hex_xi = hex_basis.q_ref()[iq * 3];
        let hex_zeta = hex_basis.q_ref()[iq * 3 + 2];
        let expected_gr = 2.0 / (1.0 - hex_zeta);
        let expected_gt = hex_xi / (1.0 - hex_zeta);
        let gr = grad_out[iq * 3];
        let gs = grad_out[iq * 3 + 1];
        let gt = grad_out[iq * 3 + 2];
        assert!((gr - expected_gr).abs() < 1e-10,
            "qpt {iq} ∂r: got {gr}, expected {expected_gr}");
        assert!(gs.abs() < 1e-10,
            "qpt {iq} ∂s: got {gs}, expected 0");
        assert!((gt - expected_gt).abs() < 1e-10,
            "qpt {iq} ∂t: got {gt}, expected {expected_gt}");
    }
}

#[test]
fn pyramid_grad_t() {
    // f = t (in pyramid space, t = ζ).
    // ∂f/∂r = 0, ∂f/∂s = 0, ∂f/∂t = 1 in pyramid space.
    let basis = pyramid(2, 2, QuadMode::Gauss, 1).unwrap();
    let mut u = vec![0.0_f64; basis.num_dof()];
    for pz in 0..2 {
        for py in 0..2 {
            for px in 0..2 {
                let zeta = if pz == 0 { -1.0_f64 } else { 1.0 };
                let dof = pz * 4 + py * 2 + px;
                u[dof] = zeta; // t = ζ
            }
        }
    }
    let mut grad_out = vec![0.0_f64; basis.num_qpoints() * 3];
    basis.apply(1, false, EvalMode::Grad, &u, &mut grad_out).unwrap();
    for iq in 0..basis.num_qpoints() {
        let gr = grad_out[iq * 3];
        let gs = grad_out[iq * 3 + 1];
        let gt = grad_out[iq * 3 + 2];
        assert!(gr.abs() < 1e-10, "qpt {iq} ∂r: got {gr}, expected 0");
        assert!(gs.abs() < 1e-10, "qpt {iq} ∂s: got {gs}, expected 0");
        assert!((gt - 1.0).abs() < 1e-10, "qpt {iq} ∂t: got {gt}, expected 1");
    }
}

// ── linear interpolation in pyramid space ─────────────────────────────

#[test]
fn pyramid_interp_xi_at_qpts() {
    // Interpolate f = ξ (linear in hex coordinates) and verify
    // against the hex ξ coordinate at each qpt.
    let basis = pyramid(2, 3, QuadMode::Gauss, 1).unwrap();
    let p = 2; // 2 nodes per direction
    let mut u = vec![0.0_f64; basis.num_dof()];
    for pz in 0..p {
        for py in 0..p {
            for px in 0..p {
                let xi = if px == 0 { -1.0_f64 } else { 1.0 };
                let dof = pz * p * p + py * p + px;
                u[dof] = xi;
            }
        }
    }
    // Get hex basis to access hex q_ref for ground truth
    let hex_basis = lagrange(3, 1, 2, 3, QuadMode::Gauss).unwrap();
    let mut v = vec![0.0_f64; basis.num_qpoints()];
    basis.apply(1, false, EvalMode::Interp, &u, &mut v).unwrap();
    for (iq, &val) in v.iter().enumerate() {
        let xi = hex_basis.q_ref()[iq * 3];
        assert!((val - xi).abs() < 1e-10, "qpt {iq}: got {val}, expected xi={xi}");
    }
}

// ── adjoint identities ─────────────────────────────────────────────────

#[test]
fn pyramid_div_adjoint_identity() {
    let basis = pyramid(2, 2, QuadMode::Gauss, 3).unwrap();
    assert_eq!(basis.dim(), 3);
    assert_eq!(basis.num_comp(), 3);
    let nd = basis.num_dof() * basis.num_comp();
    let nq = basis.num_qpoints();
    let u: Vec<f64> = (0..nd).map(|i| 0.07 * i as f64 - 0.15).collect();
    let w_div: Vec<f64> = (0..nq).map(|i| 0.03 * i as f64 + 0.5).collect();

    let mut div_u = vec![0.0_f64; nq];
    basis.apply(1, false, EvalMode::Div, &u, &mut div_u).unwrap();
    let mut dt_w = vec![0.0_f64; nd];
    basis.apply(1, true, EvalMode::Div, &w_div, &mut dt_w).unwrap();
    let lhs: f64 = u.iter().zip(dt_w.iter()).map(|(a, b)| a * b).sum();
    let rhs: f64 = div_u.iter().zip(w_div.iter()).map(|(a, b)| a * b).sum();
    assert!((lhs - rhs).abs() < 1e-10 * (1.0 + lhs.abs()));
}

#[test]
fn pyramid_curl_adjoint_identity() {
    let basis = pyramid(2, 2, QuadMode::Gauss, 3).unwrap();
    assert_eq!(basis.dim(), 3);
    let nd = basis.num_dof() * basis.num_comp();
    let nq = basis.num_qpoints();
    let u: Vec<f64> = (0..nd).map(|i| 0.05 * i as f64 - 0.2).collect();
    let w_curl: Vec<f64> = (0..nq * 3).map(|i| 0.02 * i as f64 + 0.12).collect();

    let mut curl_u = vec![0.0_f64; nq * 3];
    basis.apply(1, false, EvalMode::Curl, &u, &mut curl_u).unwrap();
    let mut ct_w = vec![0.0_f64; nd];
    basis.apply(1, true, EvalMode::Curl, &w_curl, &mut ct_w).unwrap();
    let lhs: f64 = u.iter().zip(ct_w.iter()).map(|(a, b)| a * b).sum();
    let rhs: f64 = curl_u.iter().zip(w_curl.iter()).map(|(a, b)| a * b).sum();
    assert!((lhs - rhs).abs() < 1e-9 * (1.0 + lhs.abs()));
}

// ── r-coordinate mapping consistency ───────────────────────────────────

#[test]
fn pyramid_qref_mapping_consistency() {
    let basis = pyramid(2, 3, QuadMode::Gauss, 1).unwrap();
    // Verify that q_ref points lie within the pyramid:
    // base: -1 <= r <= 1, -1 <= s <= 1 at t=-1
    // apex: r=0, s=0 at t=1
    // Mapping: r = ξ(1-ζ)/2, s = η(1-ζ)/2, t = ζ
    // So |r| <= (1-ζ)/2 = (1-t)/2
    for iq in 0..basis.num_qpoints() {
        let r = basis.q_ref()[iq * 3];
        let s = basis.q_ref()[iq * 3 + 1];
        let t = basis.q_ref()[iq * 3 + 2];
        assert!((-1.0..=1.0).contains(&r), "qpt {iq}: r={r} out of [-1,1]");
        assert!((-1.0..=1.0).contains(&s), "qpt {iq}: s={s} out of [-1,1]");
        assert!((-1.0..=1.0).contains(&t), "qpt {iq}: t={t} out of [-1,1]");
        // r and s should shrink toward zero as t -> 1
        let max_rs = (1.0 - t) / 2.0; // max |r|,|s| at this t level
        assert!(
            r.abs() <= max_rs + 1e-14,
            "qpt {iq}: |r|={} > max_rs={max_rs} at t={t}",
            r.abs()
        );
        assert!(
            s.abs() <= max_rs + 1e-14,
            "qpt {iq}: |s|={} > max_rs={max_rs} at t={t}",
            s.abs()
        );
    }
}
