//! Nodal bases on segments, triangles and tetrahedra.

use reed::basis::BasisTrait;
use reed::cpu::basis_simplex::SimplexBasis;
use reed::cpu::simplex_shapes as table;
use reed::enums::{ElemTopology, EvalMode};
use reed::error::ReedResult;
use reed::scalar::{Real, Scalar};

/// Double-precision numbers.
#[derive(Clone, Copy, Debug, PartialEq, PartialOrd)]
struct F64(f64);

impl Real for F64 {
    fn zero() -> Self {
        F64(0.0)
    }
    fn one() -> Self {
        F64(1.0)
    }
    fn from_int(n: i64) -> Self {
        F64(n as f64)
    }
    fn pi() -> Self {
        F64(std::f64::consts::PI)
    }
    fn epsilon() -> Self {
        F64(f64::EPSILON)
    }
    fn add(self, rhs: Self) -> Self {
        F64(self.0 + rhs.0)
    }
    fn sub(self, rhs: Self) -> Self {
        F64(self.0 - rhs.0)
    }
    fn mul(self, rhs: Self) -> Self {
        F64(self.0 * rhs.0)
    }
    fn div(self, rhs: Self) -> Self {
        F64(self.0 / rhs.0)
    }
    fn neg(self) -> Self {
        F64(-self.0)
    }
    fn abs(self) -> Self {
        F64(self.0.abs())
    }
    fn sqrt(self) -> Self {
        F64(self.0.sqrt())
    }
    fn cos(self) -> Self {
        F64(self.0.cos())
    }
    fn lt(self, rhs: Self) -> bool {
        self.0 < rhs.0
    }
    fn le(self, rhs: Self) -> bool {
        self.0 <= rhs.0
    }
    fn eq_value(self, rhs: Self) -> bool {
        self.0 == rhs.0
    }
    fn to_text(self) -> String {
        format!("{}", self.0)
    }
}


impl Scalar for F64 {
    type Work = F64;

    fn from_work(w: F64) -> Option<Self> {
        Some(w)
    }
    fn to_work(self) -> F64 {
        self
    }
}

fn wrap(x: &[f64]) -> Vec<F64> {
    x.iter().map(|v| F64(*v)).collect()
}

fn plain(x: &[F64]) -> Vec<f64> {
    x.iter().map(|v| v.0).collect()
}

/// A basis over plain numbers.
struct Plain<B>(B);

impl<B: BasisTrait<F64>> Plain<B> {
    fn dim(&self) -> usize {
        self.0.dim()
    }
    fn num_dof(&self) -> usize {
        self.0.num_dof()
    }
    fn num_qpoints(&self) -> usize {
        self.0.num_qpoints()
    }
    fn num_comp(&self) -> usize {
        self.0.num_comp()
    }
    fn q_weights(&self) -> Vec<f64> {
        plain(self.0.q_weights())
    }
    fn q_ref(&self) -> Vec<f64> {
        plain(self.0.q_ref())
    }
    fn apply(
        &self,
        num_elem: usize,
        transpose: bool,
        mode: EvalMode,
        u: &[f64],
        v: &mut [f64],
    ) -> ReedResult<()> {
        let mut w = wrap(v);
        let r = self.0.apply(num_elem, transpose, mode, &wrap(u), &mut w);
        for (x, y) in v.iter_mut().zip(w.iter()) {
            *x = y.0;
        }
        r
    }
}

fn simplex(
    topo: ElemTopology,
    poly: usize,
    ncomp: usize,
    q: usize,
) -> ReedResult<Plain<SimplexBasis<F64>>> {
    SimplexBasis::new(topo, poly, ncomp, q).map(Plain)
}

fn line_p1_basis(t: f64) -> (Vec<f64>, Vec<f64>) {
    let (a, b) = table::line_p1_basis(F64(t));
    (plain(&a), plain(&b))
}

fn line_p2_basis(t: f64) -> (Vec<f64>, Vec<f64>) {
    let (a, b) = table::line_p2_basis(F64(t));
    (plain(&a), plain(&b))
}

fn line_p3_basis(t: f64) -> (Vec<f64>, Vec<f64>) {
    let (a, b) = table::line_p3_basis(F64(t));
    (plain(&a), plain(&b))
}

fn tri_p1_basis(x: f64, y: f64) -> (Vec<f64>, Vec<f64>) {
    let (a, b) = table::tri_p1_basis(F64(x), F64(y));
    (plain(&a), plain(&b))
}

fn tri_p2_basis(x: f64, y: f64) -> (Vec<f64>, Vec<f64>) {
    let (a, b) = table::tri_p2_basis(F64(x), F64(y));
    (plain(&a), plain(&b))
}

fn tri_p3_basis(x: f64, y: f64) -> (Vec<f64>, Vec<f64>) {
    let (a, b) = table::tri_p3_basis(F64(x), F64(y));
    (plain(&a), plain(&b))
}

fn tet_p1_basis(x: f64, y: f64, z: f64) -> (Vec<f64>, Vec<f64>) {
    let (a, b) = table::tet_p1_basis(F64(x), F64(y), F64(z));
    (plain(&a), plain(&b))
}

fn tet_p2_basis(x: f64, y: f64, z: f64) -> (Vec<f64>, Vec<f64>) {
    let (a, b) = table::tet_p2_basis(F64(x), F64(y), F64(z));
    (plain(&a), plain(&b))
}

fn tet_p3_basis(x: f64, y: f64, z: f64) -> (Vec<f64>, Vec<f64>) {
    let (a, b) = table::tet_p3_basis(F64(x), F64(y), F64(z));
    (plain(&a), plain(&b))
}

fn line_quadrature(q: usize) -> ReedResult<(Vec<f64>, Vec<f64>)> {
    let (a, b): (Vec<F64>, Vec<F64>) = table::line_quadrature(q)?;
    Ok((plain(&a), plain(&b)))
}

fn tri_quadrature(q: usize) -> ReedResult<(Vec<f64>, Vec<f64>)> {
    let (a, b): (Vec<F64>, Vec<F64>) = table::tri_quadrature(q)?;
    Ok((plain(&a), plain(&b)))
}

fn tet_quadrature(q: usize) -> ReedResult<(Vec<f64>, Vec<f64>)> {
    let (a, b): (Vec<F64>, Vec<F64>) = table::tet_quadrature(q)?;
    Ok((plain(&a), plain(&b)))
}

const TOL: f64 = 1e-12;

// ── partition-of-unity ────────────────────────────────────────────────

#[test]
fn tri_p1_partition_of_unity() {
    for &(x, y) in &[(0.1, 0.2), (0.5, 0.3), (1.0 / 3.0, 1.0 / 3.0)] {
        let (phi, _) = tri_p1_basis(x, y);
        let sum: f64 = phi.iter().sum();
        assert!(
            (sum - 1.0).abs() < TOL,
            "PoU failed at ({x},{y}): sum={sum}"
        );
    }
}

#[test]
fn tri_p2_partition_of_unity() {
    for &(x, y) in &[(0.1, 0.2), (0.5, 0.25), (0.25, 0.5)] {
        let (phi, _) = tri_p2_basis(x, y);
        let sum: f64 = phi.iter().sum();
        assert!(
            (sum - 1.0).abs() < TOL,
            "PoU failed at ({x},{y}): sum={sum}"
        );
    }
}

#[test]
fn tet_p1_partition_of_unity() {
    for &(x, y, z) in &[(0.1, 0.2, 0.3), (0.25, 0.25, 0.25)] {
        let (phi, _) = tet_p1_basis(x, y, z);
        let sum: f64 = phi.iter().sum();
        assert!(
            (sum - 1.0).abs() < TOL,
            "PoU failed at ({x},{y},{z}): sum={sum}"
        );
    }
}

#[test]
fn tet_p2_partition_of_unity() {
    for &(x, y, z) in &[(0.1, 0.2, 0.1), (0.2, 0.2, 0.2)] {
        let (phi, _) = tet_p2_basis(x, y, z);
        let sum: f64 = phi.iter().sum();
        assert!(
            (sum - 1.0).abs() < TOL,
            "PoU failed at ({x},{y},{z}): sum={sum}"
        );
    }
}

#[test]
fn tri_p3_partition_of_unity() {
    for &(x, y) in &[(0.12, 0.21), (0.4, 0.35), (0.25, 0.25)] {
        let (phi, _) = tri_p3_basis(x, y);
        let sum: f64 = phi.iter().sum();
        assert!(
            (sum - 1.0).abs() < 1e-11,
            "PoU failed at ({x},{y}): sum={sum}"
        );
    }
}

#[test]
fn tet_p3_partition_of_unity() {
    for &(x, y, z) in &[(0.1, 0.15, 0.05), (0.2, 0.15, 0.1)] {
        let (phi, _) = tet_p3_basis(x, y, z);
        let sum: f64 = phi.iter().sum();
        assert!(
            (sum - 1.0).abs() < 1e-10,
            "PoU failed at ({x},{y},{z}): sum={sum}"
        );
    }
}

// ── gradient consistency via finite differences ───────────────────────

// Centered finite difference — O(h²) error so 1e-8 tolerance is safe with h=1e-5.
fn fd_check_tri(poly: usize, x: f64, y: f64, h: f64) {
    let basis_fn: fn(f64, f64) -> (Vec<f64>, Vec<f64>) = match poly {
        1 => tri_p1_basis,
        2 => tri_p2_basis,
        3 => tri_p3_basis,
        _ => panic!("fd_check_tri: poly {poly}"),
    };
    let (_, dphi) = basis_fn(x, y);
    let (phi_px, _) = basis_fn(x + h, y);
    let (phi_mx, _) = basis_fn(x - h, y);
    let (phi_py, _) = basis_fn(x, y + h);
    let (phi_my, _) = basis_fn(x, y - h);
    let num_dof = dphi.len() / 2;
    for i in 0..num_dof {
        let fd_x = (phi_px[i] - phi_mx[i]) / (2.0 * h);
        let fd_y = (phi_py[i] - phi_my[i]) / (2.0 * h);
        let an_x = dphi[i * 2];
        let an_y = dphi[i * 2 + 1];
        assert!(
            (fd_x - an_x).abs() < 1e-8,
            "tri P{poly} dof {i} ∂/∂x: FD={fd_x:.10}, analytic={an_x:.10}"
        );
        assert!(
            (fd_y - an_y).abs() < 1e-8,
            "tri P{poly} dof {i} ∂/∂y: FD={fd_y:.10}, analytic={an_y:.10}"
        );
    }
}

fn fd_check_line(poly: usize, t: f64, h: f64) {
    let basis_fn: fn(f64) -> (Vec<f64>, Vec<f64>) = match poly {
        1 => line_p1_basis,
        2 => line_p2_basis,
        3 => line_p3_basis,
        _ => panic!("fd_check_line: poly {poly}"),
    };
    let (_, dphi) = basis_fn(t);
    let (phi_p, _) = basis_fn(t + h);
    let (phi_m, _) = basis_fn(t - h);
    let num_dof = dphi.len();
    for i in 0..num_dof {
        let fd = (phi_p[i] - phi_m[i]) / (2.0 * h);
        let an = dphi[i];
        assert!(
            (fd - an).abs() < 1e-7,
            "line P{poly} dof {i}: FD={fd:.10}, analytic={an:.10}"
        );
    }
}

#[test]
fn line_p1_gradient_fd() {
    fd_check_line(1, 0.31, 1e-6);
}

#[test]
fn line_p2_gradient_fd() {
    fd_check_line(2, 0.27, 1e-6);
}

#[test]
fn line_p3_gradient_fd() {
    fd_check_line(3, 0.26, 1e-6);
}

#[test]
fn tri_p1_gradient_fd() {
    fd_check_tri(1, 0.2, 0.3, 1e-6);
}
#[test]
fn tri_p2_gradient_fd() {
    fd_check_tri(2, 0.2, 0.3, 1e-6);
}
#[test]
fn tri_p3_gradient_fd() {
    fd_check_tri(3, 0.22, 0.31, 1e-6);
}

fn fd_check_tet(poly: usize, x: f64, y: f64, z: f64, h: f64) {
    let basis_fn: fn(f64, f64, f64) -> (Vec<f64>, Vec<f64>) = match poly {
        1 => tet_p1_basis,
        2 => tet_p2_basis,
        3 => tet_p3_basis,
        _ => panic!("fd_check_tet: poly {poly}"),
    };
    let (_, dphi) = basis_fn(x, y, z);
    let (phi_px, _) = basis_fn(x + h, y, z);
    let (phi_mx, _) = basis_fn(x - h, y, z);
    let (phi_py, _) = basis_fn(x, y + h, z);
    let (phi_my, _) = basis_fn(x, y - h, z);
    let (phi_pz, _) = basis_fn(x, y, z + h);
    let (phi_mz, _) = basis_fn(x, y, z - h);
    let num_dof = dphi.len() / 3;
    for i in 0..num_dof {
        let fd_x = (phi_px[i] - phi_mx[i]) / (2.0 * h);
        let fd_y = (phi_py[i] - phi_my[i]) / (2.0 * h);
        let fd_z = (phi_pz[i] - phi_mz[i]) / (2.0 * h);
        let an_x = dphi[i * 3];
        let an_y = dphi[i * 3 + 1];
        let an_z = dphi[i * 3 + 2];
        assert!((fd_x - an_x).abs() < 1e-7, "tet P{poly} dof {i} ∂x");
        assert!((fd_y - an_y).abs() < 1e-7, "tet P{poly} dof {i} ∂y");
        assert!((fd_z - an_z).abs() < 1e-7, "tet P{poly} dof {i} ∂z");
    }
}

#[test]
fn tet_p1_gradient_fd() {
    fd_check_tet(1, 0.12, 0.1, 0.08, 1e-6);
}

#[test]
fn tet_p2_gradient_fd() {
    fd_check_tet(2, 0.15, 0.11, 0.07, 1e-6);
}

#[test]
fn tet_p3_gradient_fd() {
    fd_check_tet(3, 0.15, 0.12, 0.08, 1e-6);
}

// ── quadrature weight sums ────────────────────────────────────────────

#[test]
fn line_quad_weight_sums() {
    for q in [1usize, 2, 3, 4, 5] {
        let (_, wts) = line_quadrature(q).unwrap();
        let sum: f64 = wts.iter().sum();
        assert!(
            (sum - 1.0).abs() < 1e-13,
            "line q={q}: weights sum to {sum}, expected 1.0"
        );
    }
}

#[test]
fn tri_quad_weight_sums() {
    for q in [1usize, 3, 4, 6, 7] {
        let (_, wts) = tri_quadrature(q).unwrap();
        let sum: f64 = wts.iter().sum();
        assert!(
            (sum - 0.5).abs() < 1e-13,
            "tri q={q}: weights sum to {sum}, expected 0.5"
        );
    }
}

#[test]
fn tet_quad_weight_sums() {
    for q in [1usize, 4, 5] {
        let (_, wts) = tet_quadrature(q).unwrap();
        let sum: f64 = wts.iter().sum();
        assert!(
            (sum - 1.0 / 6.0).abs() < 1e-13,
            "tet q={q}: weights sum to {sum}, expected 1/6"
        );
    }
}

// ── interp exactly reproduces linear fields ───────────────────────────

#[test]
fn tri_p1_basis_apply_interp() {
    // u = x at the 3 P1 nodes: u[0]=(0,0)→0, u[1]=(1,0)→1, u[2]=(0,1)→0
    // At q=3 Gauss points, interpolated value should equal x-coordinate.
    let basis = simplex(ElemTopology::Triangle, 1, 1, 3).unwrap();
    let u = vec![0.0_f64, 1.0, 0.0]; // ncomp=1 × num_dof=3
    let mut v = vec![0.0_f64; basis.num_qpoints()];
    basis.apply(1, false, EvalMode::Interp, &u, &mut v).unwrap();
    let (q_ref, _) = tri_quadrature(3).unwrap();
    for (qi, vv) in v.iter().enumerate() {
        let expected = q_ref[qi * 2]; // x-coordinate of qpt
        assert!(
            (*vv - expected).abs() < TOL,
            "qpt {qi}: got {vv}, expected {expected}"
        );
    }
}

#[test]
fn tet_p1_basis_apply_interp() {
    // u = y at P1 tet nodes: (0,0,0)→0, (1,0,0)→0, (0,1,0)→1, (0,0,1)→0
    let basis = simplex(ElemTopology::Tet, 1, 1, 4).unwrap();
    let u = vec![0.0_f64, 0.0, 1.0, 0.0]; // u=y at each vertex
    let mut v = vec![0.0_f64; basis.num_qpoints()];
    basis.apply(1, false, EvalMode::Interp, &u, &mut v).unwrap();
    let (q_ref, _) = tet_quadrature(4).unwrap();
    for (qi, vv) in v.iter().enumerate() {
        let expected = q_ref[qi * 3 + 1]; // y-coordinate of qpt
        assert!(
            (*vv - expected).abs() < TOL,
            "qpt {qi}: got {vv}, expected {expected}"
        );
    }
}

#[test]
fn weight_transpose_matches_interp_transpose_tri_p1_scalar() {
    let b = simplex(ElemTopology::Triangle, 1, 1, 3).unwrap();
    assert_eq!(b.num_comp(), 1);
    let ne = 2usize;
    let u: Vec<f64> = (0..ne * b.num_qpoints())
        .map(|i| 0.1 * (i + 1) as f64)
        .collect();
    let mut v_w = vec![0.0_f64; ne * b.num_dof() * b.num_comp()];
    let mut v_i = vec![0.0_f64; ne * b.num_dof() * b.num_comp()];
    b.apply(ne, true, EvalMode::Weight, &u, &mut v_w).unwrap();
    b.apply(ne, true, EvalMode::Interp, &u, &mut v_i).unwrap();
    for i in 0..v_w.len() {
        assert!(
            (v_w[i] - v_i[i]).abs() < TOL,
            "i={i} w={} i={}",
            v_w[i],
            v_i[i]
        );
    }
}

// ── P2/P3 nodal identity & exact interpolation ──────────────────────

fn tri_p2_lattice_nodes() -> [(f64, f64); 6] {
    [
        (0.0, 0.0),
        (1.0, 0.0),
        (0.0, 1.0),
        (0.5, 0.0),
        (0.5, 0.5),
        (0.0, 0.5),
    ]
}

/// Lattice of the cubic triangle, in node order.
fn tri_p3_lattice_nodes() -> [(f64, f64); 10] {
    [
        (0.0, 0.0),
        (1.0, 0.0),
        (0.0, 1.0),
        (1.0 / 3.0, 0.0),
        (2.0 / 3.0, 0.0),
        (2.0 / 3.0, 1.0 / 3.0),
        (1.0 / 3.0, 2.0 / 3.0),
        (0.0, 1.0 / 3.0),
        (0.0, 2.0 / 3.0),
        (1.0 / 3.0, 1.0 / 3.0),
    ]
}

fn tet_p3_lattice_nodes() -> Vec<(f64, f64, f64)> {
    let mut out = Vec::with_capacity(20);
    for d0 in 0..4 {
        for d1 in 0..(4 - d0) {
            for d2 in 0..(4 - d0 - d1) {
                let d3 = 3 - d0 - d1 - d2;
                out.push((d1 as f64 / 3.0, d2 as f64 / 3.0, d3 as f64 / 3.0));
            }
        }
    }
    assert_eq!(out.len(), 20);
    out
}

#[test]
fn tri_p2_nodal_kronecker() {
    const EPS: f64 = 1e-12;
    let nodes = tri_p2_lattice_nodes();
    for (i, &(xi, yi)) in nodes.iter().enumerate() {
        let (phi, _) = tri_p2_basis(xi, yi);
        for (j, &v) in phi.iter().enumerate() {
            let e = if i == j { 1.0 } else { 0.0 };
            assert!(
                (v - e).abs() < EPS,
                "tri P2 node {i}, dof {j}: got {v}, expected {e}"
            );
        }
    }
}

#[test]
fn tri_p3_nodal_kronecker() {
    const EPS: f64 = 5e-11;
    let nodes = tri_p3_lattice_nodes();
    for (i, &(xi, yi)) in nodes.iter().enumerate() {
        let (phi, _) = tri_p3_basis(xi, yi);
        for (j, &v) in phi.iter().enumerate() {
            let e = if i == j { 1.0 } else { 0.0 };
            assert!(
                (v - e).abs() < EPS,
                "tri P3 node {i}, dof {j}: got {v}, expected {e}"
            );
        }
    }
}

#[test]
fn tet_p3_nodal_kronecker() {
    const EPS: f64 = 5e-10;
    let nodes = tet_p3_lattice_nodes();
    for (i, &(xi, yi, zi)) in nodes.iter().enumerate() {
        let (phi, _) = tet_p3_basis(xi, yi, zi);
        for (j, &v) in phi.iter().enumerate() {
            let e = if i == j { 1.0 } else { 0.0 };
            assert!(
                (v - e).abs() < EPS,
                "tet P3 node {i}, dof {j}: got {v}, expected {e}"
            );
        }
    }
}

#[test]
fn tri_p3_basis_apply_interp_cubic_exact() {
    let nodes = tri_p3_lattice_nodes();
    fn f(x: f64, y: f64) -> f64 {
        x * x * y + 0.25 * y * y * y
    }
    let u: Vec<f64> = nodes.iter().map(|&(x, y)| f(x, y)).collect();
    let basis = simplex(ElemTopology::Triangle, 3, 1, 7).unwrap();
    let mut v = vec![0.0_f64; basis.num_qpoints()];
    basis.apply(1, false, EvalMode::Interp, &u, &mut v).unwrap();
    let q_ref = basis.q_ref();
    for iq in 0..basis.num_qpoints() {
        let x = q_ref[iq * 2];
        let y = q_ref[iq * 2 + 1];
        let expected = f(x, y);
        assert!(
            (v[iq] - expected).abs() < 2e-11,
            "qpt {iq}: got {}, expected {}",
            v[iq],
            expected
        );
    }
}

#[test]
fn tet_p3_basis_apply_interp_cubic_exact() {
    let nodes = tet_p3_lattice_nodes();
    fn g(x: f64, y: f64, z: f64) -> f64 {
        x * y * z + x * x - 0.37 * y + 1.2 * z * z
    }
    let u: Vec<f64> = nodes.iter().map(|&(x, y, z)| g(x, y, z)).collect();
    let basis = simplex(ElemTopology::Tet, 3, 1, 5).unwrap();
    let mut v = vec![0.0_f64; basis.num_qpoints()];
    basis.apply(1, false, EvalMode::Interp, &u, &mut v).unwrap();
    let q_ref = basis.q_ref();
    for iq in 0..basis.num_qpoints() {
        let x = q_ref[iq * 3];
        let y = q_ref[iq * 3 + 1];
        let z = q_ref[iq * 3 + 2];
        let expected = g(x, y, z);
        assert!(
            (v[iq] - expected).abs() < 3e-10,
            "qpt {iq}: got {}, expected {}",
            v[iq],
            expected
        );
    }
}

#[test]
fn tri_p3_basis_apply_grad_cubic_matches_analytic() {
    let nodes = tri_p3_lattice_nodes();
    fn f(x: f64, y: f64) -> f64 {
        x * x * y
    }
    fn grad_f(x: f64, y: f64) -> (f64, f64) {
        (2.0 * x * y, x * x)
    }
    let u: Vec<f64> = nodes.iter().map(|&(x, y)| f(x, y)).collect();
    let basis = simplex(ElemTopology::Triangle, 3, 1, 6).unwrap();
    let mut v = vec![0.0_f64; basis.num_qpoints() * 2];
    basis.apply(1, false, EvalMode::Grad, &u, &mut v).unwrap();
    let q_ref = basis.q_ref();
    for iq in 0..basis.num_qpoints() {
        let x = q_ref[iq * 2];
        let y = q_ref[iq * 2 + 1];
        let (gx, gy) = grad_f(x, y);
        assert!((v[iq * 2] - gx).abs() < 2e-10, "qpt {iq} ∂x");
        assert!((v[iq * 2 + 1] - gy).abs() < 2e-10, "qpt {iq} ∂y");
    }
}

// ── weight mode ───────────────────────────────────────────────────────

#[test]
fn tri_p1_weight_sums_to_area() {
    let basis = simplex(ElemTopology::Triangle, 1, 1, 3).unwrap();
    let mut v = vec![0.0_f64; basis.num_qpoints()];
    basis
        .apply(1, false, EvalMode::Weight, &[], &mut v)
        .unwrap();
    let sum: f64 = v.iter().sum();
    assert!(
        (sum - 0.5).abs() < TOL,
        "weight sum={sum}, expected 0.5 (triangle area)"
    );
}

#[test]
fn tet_p1_weight_sums_to_volume() {
    let basis = simplex(ElemTopology::Tet, 1, 1, 4).unwrap();
    let mut v = vec![0.0_f64; basis.num_qpoints()];
    basis
        .apply(1, false, EvalMode::Weight, &[], &mut v)
        .unwrap();
    let sum: f64 = v.iter().sum();
    assert!(
        (sum - 1.0 / 6.0).abs() < TOL,
        "weight sum={sum}, expected 1/6 (tet volume)"
    );
}

#[test]
fn tri_p1_div_curl_adjoint_identities() {
    let basis = simplex(ElemTopology::Triangle, 1, 2, 3).unwrap();
    assert_eq!(basis.dim(), 2);
    assert_eq!(basis.num_comp(), 2);
    let nd = basis.num_dof() * basis.num_comp();
    let nq = basis.num_qpoints();
    let u: Vec<f64> = (0..nd).map(|i| 0.13 * i as f64 - 0.2).collect();
    let w_div: Vec<f64> = (0..nq).map(|i| 0.05 * i as f64 + 0.4).collect();
    let w_curl: Vec<f64> = (0..nq).map(|i| 0.11 * i as f64 - 0.1).collect();

    let mut div_u = vec![0.0_f64; nq];
    basis
        .apply(1, false, EvalMode::Div, &u, &mut div_u)
        .unwrap();
    let mut dt_w = vec![0.0_f64; nd];
    basis
        .apply(1, true, EvalMode::Div, &w_div, &mut dt_w)
        .unwrap();
    let lhs: f64 = u.iter().zip(dt_w.iter()).map(|(a, b)| a * b).sum();
    let rhs: f64 = div_u.iter().zip(w_div.iter()).map(|(a, b)| a * b).sum();
    assert!((lhs - rhs).abs() < 1e-10 * (1.0 + lhs.abs()));

    let mut curl_u = vec![0.0_f64; nq];
    basis
        .apply(1, false, EvalMode::Curl, &u, &mut curl_u)
        .unwrap();
    dt_w.fill(0.0);
    basis
        .apply(1, true, EvalMode::Curl, &w_curl, &mut dt_w)
        .unwrap();
    let lhs2: f64 = u.iter().zip(dt_w.iter()).map(|(a, b)| a * b).sum();
    let rhs2: f64 = curl_u.iter().zip(w_curl.iter()).map(|(a, b)| a * b).sum();
    assert!((lhs2 - rhs2).abs() < 1e-10 * (1.0 + lhs2.abs()));
}

#[test]
fn tet_p1_div_curl_adjoint_identities() {
    let basis = simplex(ElemTopology::Tet, 1, 3, 4).unwrap();
    assert_eq!(basis.dim(), 3);
    let nd = basis.num_dof() * basis.num_comp();
    let nq = basis.num_qpoints();
    let u: Vec<f64> = (0..nd).map(|i| 0.07 * i as f64 - 0.15).collect();
    let w_div: Vec<f64> = (0..nq).map(|i| 0.03 * i as f64 + 0.5).collect();
    let w_curl: Vec<f64> = (0..nq * 3).map(|i| 0.02 * i as f64 + 0.12).collect();

    let mut div_u = vec![0.0_f64; nq];
    basis
        .apply(1, false, EvalMode::Div, &u, &mut div_u)
        .unwrap();
    let mut dt_w = vec![0.0_f64; nd];
    basis
        .apply(1, true, EvalMode::Div, &w_div, &mut dt_w)
        .unwrap();
    let lhs: f64 = u.iter().zip(dt_w.iter()).map(|(a, b)| a * b).sum();
    let rhs: f64 = div_u.iter().zip(w_div.iter()).map(|(a, b)| a * b).sum();
    assert!((lhs - rhs).abs() < 1e-10 * (1.0 + lhs.abs()));

    let mut curl_u = vec![0.0_f64; nq * 3];
    basis
        .apply(1, false, EvalMode::Curl, &u, &mut curl_u)
        .unwrap();
    dt_w.fill(0.0);
    basis
        .apply(1, true, EvalMode::Curl, &w_curl, &mut dt_w)
        .unwrap();
    let lhs2: f64 = u.iter().zip(dt_w.iter()).map(|(a, b)| a * b).sum();
    let rhs2: f64 = curl_u.iter().zip(w_curl.iter()).map(|(a, b)| a * b).sum();
    assert!((lhs2 - rhs2).abs() < 1e-9 * (1.0 + lhs2.abs()));
}
