//! Quadrature rules on element faces.

use reed::cpu::basis_lagrange::LagrangeBasis;
use reed::cpu::basis_simplex::SimplexBasis;
use reed::cpu::face_quadrature as rules;
use reed::enums::{ElemTopology, QuadMode};
use reed::error::ReedResult;
use reed::scalar::{Real, Scalar};

/// Double-precision numbers.
#[derive(Clone, Copy, Debug, PartialEq, PartialOrd)]
struct F64(f64);

impl Real for F64 {
    fn zero() -> Self {
        F64(0.0)
    }
    fn one() -> Self {
        F64(1.0)
    }
    fn from_int(n: i64) -> Self {
        F64(n as f64)
    }
    fn pi() -> Self {
        F64(std::f64::consts::PI)
    }
    fn epsilon() -> Self {
        F64(f64::EPSILON)
    }
    fn add(self, rhs: Self) -> Self {
        F64(self.0 + rhs.0)
    }
    fn sub(self, rhs: Self) -> Self {
        F64(self.0 - rhs.0)
    }
    fn mul(self, rhs: Self) -> Self {
        F64(self.0 * rhs.0)
    }
    fn div(self, rhs: Self) -> Self {
        F64(self.0 / rhs.0)
    }
    fn neg(self) -> Self {
        F64(-self.0)
    }
    fn abs(self) -> Self {
        F64(self.0.abs())
    }
    fn sqrt(self) -> Self {
        F64(self.0.sqrt())
    }
    fn cos(self) -> Self {
        F64(self.0.cos())
    }
    fn lt(self, rhs: Self) -> bool {
        self.0 < rhs.0
    }
    fn le(self, rhs: Self) -> bool {
        self.0 <= rhs.0
    }
    fn eq_value(self, rhs: Self) -> bool {
        self.0 == rhs.0
    }
    fn to_text(self) -> String {
        format!("{}", self.0)
    }
}


impl Scalar for F64 {
    type Work = F64;

    fn from_work(w: F64) -> Option<Self> {
        Some(w)
    }
    fn to_work(self) -> F64 {
        self
    }
}

fn plain(x: &[F64]) -> Vec<f64> {
    x.iter().map(|v| v.0).collect()
}

fn lagrange(
    dim: usize,
    ncomp: usize,
    p: usize,
    q: usize,
    qmode: QuadMode,
) -> ReedResult<LagrangeBasis<F64>> {
    LagrangeBasis::new(dim, ncomp, p, q, qmode)
}

fn simplex(
    topo: ElemTopology,
    poly: usize,
    ncomp: usize,
    q: usize,
) -> ReedResult<SimplexBasis<F64>> {
    SimplexBasis::new(topo, poly, ncomp, q)
}

fn face_quadrature_tensor(
    basis: &LagrangeBasis<F64>,
    face: usize,
) -> ReedResult<(Vec<f64>, Vec<f64>)> {
    let (x, w) = rules::face_quadrature_tensor(basis, face)?;
    Ok((plain(&x), plain(&w)))
}

fn face_quadrature_simplex(
    basis: &SimplexBasis<F64>,
    face: usize,
) -> ReedResult<(Vec<f64>, Vec<f64>)> {
    let (x, w) = rules::face_quadrature_simplex(basis, face)?;
    Ok((plain(&x), plain(&w)))
}

#[test]
fn test_quad_face_quadrature_bottom() {
    let basis = lagrange(2, 1, 2, 3, QuadMode::Gauss).unwrap();
    let (q_ref, weights) = face_quadrature_tensor(&basis, 0).unwrap();

    // Quad dim=2, q=3: face should have nq_face=3 points × 1 coord each
    assert_eq!(q_ref.len(), 3);
    assert_eq!(weights.len(), 3);

    // Weights should sum to 2.0 (length of 1D reference edge [-1,1])
    let wsum: f64 = weights.iter().sum();
    assert!((wsum - 2.0).abs() < 1e-12);

    // q_ref points should be within [-1, 1]
    for &x in &q_ref {
        assert!(x >= -1.0 && x <= 1.0);
    }
}

#[test]
fn test_quad_face_quadrature_top() {
    let basis = lagrange(2, 1, 2, 4, QuadMode::GaussLobatto).unwrap();
    let (q_ref, weights) = face_quadrature_tensor(&basis, 2).unwrap();

    assert_eq!(q_ref.len(), 4);
    assert_eq!(weights.len(), 4);

    let wsum: f64 = weights.iter().sum();
    assert!((wsum - 2.0).abs() < 1e-12);
}

#[test]
fn test_hex_face_quadrature_bottom() {
    let basis = lagrange(3, 1, 2, 3, QuadMode::Gauss).unwrap();
    let (q_ref, weights) = face_quadrature_tensor(&basis, 0).unwrap();

    // Hex dim=3, q=3: face is 2D Quad, nq_face = 9 points × 2 coords each
    assert_eq!(q_ref.len(), 18); // 9 * 2
    assert_eq!(weights.len(), 9);

    // Weights should sum to 4.0 (area of 2D reference face [-1,1]^2)
    let wsum: f64 = weights.iter().sum();
    assert!((wsum - 4.0).abs() < 1e-12);

    // q_ref coords should be within [-1, 1]
    for &x in &q_ref {
        assert!(x >= -1.0 && x <= 1.0);
    }
}

#[test]
fn test_hex_face_quadrature_right() {
    let basis = lagrange(3, 1, 3, 4, QuadMode::Gauss).unwrap();
    let (q_ref, weights) = face_quadrature_tensor(&basis, 1).unwrap();

    // q=4, face has 16 points × 2 coords
    assert_eq!(q_ref.len(), 32);
    assert_eq!(weights.len(), 16);

    let wsum: f64 = weights.iter().sum();
    assert!((wsum - 4.0).abs() < 1e-12);
}

#[test]
fn test_hex_face_quadrature_front() {
    let basis = lagrange(3, 1, 2, 2, QuadMode::GaussLobatto).unwrap();
    let (q_ref, weights) = face_quadrature_tensor(&basis, 4).unwrap();

    assert_eq!(q_ref.len(), 8); // 4 * 2
    assert_eq!(weights.len(), 4);

    let wsum: f64 = weights.iter().sum();
    assert!((wsum - 4.0).abs() < 1e-12);
}

#[test]
fn test_invalid_face_quad() {
    let basis = lagrange(2, 1, 2, 2, QuadMode::Gauss).unwrap();
    assert!(face_quadrature_tensor(&basis, 4).is_err());
}

#[test]
fn test_invalid_face_hex() {
    let basis = lagrange(3, 1, 2, 2, QuadMode::Gauss).unwrap();
    assert!(face_quadrature_tensor(&basis, 6).is_err());
}

// ── simplex face quadrature tests ──────────────────────────────────────

#[test]
fn test_tri_p1_face_quadrature() {
    let basis = simplex(ElemTopology::Triangle, 1, 1, 1).unwrap();
    // P1: poly=1, nq_face = 2 (poly+1)
    let (q_ref, weights) = face_quadrature_simplex(&basis, 0).unwrap();
    assert_eq!(q_ref.len(), 2); // [nq × 1], 2 points × 1 coord
    assert_eq!(weights.len(), 2);
    // Weights should sum to 1.0 (length of reference edge [0,1])
    let wsum: f64 = weights.iter().sum();
    assert!((wsum - 1.0).abs() < 1e-12);
    // Face-local coords t should be in [0, 1]
    for &t in &q_ref {
        assert!(t >= 0.0 && t <= 1.0);
    }
}

#[test]
fn test_tri_p2_face_quadrature() {
    let basis = simplex(ElemTopology::Triangle, 2, 1, 3).unwrap();
    // P2: poly=2, nq_face = 3
    let (q_ref, weights) = face_quadrature_simplex(&basis, 1).unwrap();
    assert_eq!(q_ref.len(), 3);
    assert_eq!(weights.len(), 3);
    let wsum: f64 = weights.iter().sum();
    assert!((wsum - 1.0).abs() < 1e-12);
}

#[test]
fn test_tri_p3_face_quadrature() {
    let basis = simplex(ElemTopology::Triangle, 3, 1, 4).unwrap();
    // P3: poly=3, nq_face = 4
    let (q_ref, weights) = face_quadrature_simplex(&basis, 2).unwrap();
    assert_eq!(q_ref.len(), 4);
    assert_eq!(weights.len(), 4);
    let wsum: f64 = weights.iter().sum();
    assert!((wsum - 1.0).abs() < 1e-12);
}

#[test]
fn test_tri_face_quadrature_independent_of_volume_q() {
    // P2 with different volume q values should give same face quadrature
    let basis_q3 = simplex(ElemTopology::Triangle, 2, 1, 3).unwrap();
    let basis_q6 = simplex(ElemTopology::Triangle, 2, 1, 6).unwrap();
    let (qr3, w3) = face_quadrature_simplex(&basis_q3, 0).unwrap();
    let (qr6, w6) = face_quadrature_simplex(&basis_q6, 0).unwrap();
    assert_eq!(qr3.len(), qr6.len());
    assert_eq!(w3.len(), w6.len());
}

#[test]
fn test_tet_p1_face_quadrature() {
    let basis = simplex(ElemTopology::Tet, 1, 1, 1).unwrap();
    // P1: tri_q=1 → 1 point × 2 coords
    let (q_ref, weights) = face_quadrature_simplex(&basis, 0).unwrap();
    assert_eq!(q_ref.len(), 2); // 1 point × 2
    assert_eq!(weights.len(), 1);
    // Weights sum to 0.5 (area of reference triangle)
    let wsum: f64 = weights.iter().sum();
    assert!((wsum - 0.5).abs() < 1e-12);
    // Face-local coords (u,v) should be in reference triangle
    for i in 0..weights.len() {
        let u = q_ref[i * 2];
        let v = q_ref[i * 2 + 1];
        assert!(u >= 0.0 && v >= 0.0 && u + v <= 1.0 + 1e-12);
    }
}

#[test]
fn test_tet_p2_face_quadrature() {
    let basis = simplex(ElemTopology::Tet, 2, 1, 4).unwrap();
    // P2: tri_q=3 → 3 points × 2 coords
    let (q_ref, weights) = face_quadrature_simplex(&basis, 1).unwrap();
    assert_eq!(q_ref.len(), 6); // 3 points × 2
    assert_eq!(weights.len(), 3);
    let wsum: f64 = weights.iter().sum();
    assert!((wsum - 0.5).abs() < 1e-12);
}

#[test]
fn test_tet_p3_face_quadrature() {
    let basis = simplex(ElemTopology::Tet, 3, 1, 5).unwrap();
    // P3: tri_q=4 → 4 points × 2 coords
    let (q_ref, weights) = face_quadrature_simplex(&basis, 2).unwrap();
    assert_eq!(q_ref.len(), 8); // 4 points × 2
    assert_eq!(weights.len(), 4);
    let wsum: f64 = weights.iter().sum();
    assert!((wsum - 0.5).abs() < 1e-12);
}

#[test]
fn test_simplex_face_invalid_face_tri() {
    let basis = simplex(ElemTopology::Triangle, 1, 1, 1).unwrap();
    assert!(face_quadrature_simplex(&basis, 3).is_err());
}

#[test]
fn test_simplex_face_invalid_face_tet() {
    let basis = simplex(ElemTopology::Tet, 1, 1, 1).unwrap();
    assert!(face_quadrature_simplex(&basis, 4).is_err());
}

#[test]
fn test_simplex_face_dim1_rejected() {
    let basis = simplex(ElemTopology::Line, 2, 1, 2).unwrap();
    assert!(face_quadrature_simplex(&basis, 0).is_err());
}

#[test]
fn test_dim1_rejected() {
    let basis = lagrange(1, 1, 2, 2, QuadMode::Gauss).unwrap();
    assert!(face_quadrature_tensor(&basis, 0).is_err());
}
