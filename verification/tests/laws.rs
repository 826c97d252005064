//! Laws on concrete values.

use reed::basis::BasisTrait;
use reed::cpu::basis_lagrange::LagrangeBasis;
use reed::cpu::basis_simplex::SimplexBasis;
use reed::cpu::eigen::{gram_of, jacobi_eigen_symmetric};
use reed::cpu::elem_restriction::CpuElemRestriction;
use reed::cpu::elem_restriction_face::CpuFaceElemRestriction;
use reed::cpu::fdm_inverse::{
    invert_dense_col_major, CpuFdmDenseInverseOperator, CpuFdmJacobiInverseOperator,
};
use reed::cpu::fdm_tensor::{CpuFdmTensorInverseOperator, FdmOperatorKind};
use reed::cpu::quadrature::{gauss_lobatto_nodes, gauss_quadrature};
use reed::cpu::simplex_shapes::{
    line_p2_basis, line_p3_basis, tet_p2_basis, tet_quadrature, tri_p2_basis, tri_quadrature,
};
use reed::cpu::vector::CpuVector;
use reed::cpu::vector_shapes::{tet_rt0, tri_nedelec_p3, tri_rt0, tri_rt2};
use reed::csr::csr_sparsity_from_offset_restriction;
use reed::elem_restriction::ElemRestrictionTrait;
use reed::enums::{ElemTopology, EvalMode, QuadMode, TransposeMode};
use reed::operator::{OperatorTrait, OperatorTransposeRequest};
use reed::scalar::{Real, Scalar};
use reed::vector::VectorTrait;

/// Double-precision numbers.
#[derive(Clone, Copy, Debug, PartialEq, PartialOrd)]
struct F64(f64);

impl Real for F64 {
    fn zero() -> Self {
        F64(0.0)
    }
    fn one() -> Self {
        F64(1.0)
    }
    fn from_int(n: i64) -> Self {
        F64(n as f64)
    }
    fn pi() -> Self {
        F64(std::f64::consts::PI)
    }
    fn epsilon() -> Self {
        F64(f64::EPSILON)
    }
    fn add(self, rhs: Self) -> Self {
        F64(self.0 + rhs.0)
    }
    fn sub(self, rhs: Self) -> Self {
        F64(self.0 - rhs.0)
    }
    fn mul(self, rhs: Self) -> Self {
        F64(self.0 * rhs.0)
    }
    fn div(self, rhs: Self) -> Self {
        F64(self.0 / rhs.0)
    }
    fn neg(self) -> Self {
        F64(-self.0)
    }
    fn abs(self) -> Self {
        F64(self.0.abs())
    }
    fn sqrt(self) -> Self {
        F64(self.0.sqrt())
    }
    fn cos(self) -> Self {
        F64(self.0.cos())
    }
    fn lt(self, rhs: Self) -> bool {
        self.0 < rhs.0
    }
    fn le(self, rhs: Self) -> bool {
        self.0 <= rhs.0
    }
    fn eq_value(self, rhs: Self) -> bool {
        self.0 == rhs.0
    }
    fn to_text(self) -> String {
        format!("{}", self.0)
    }
}


impl Scalar for F64 {
    type Work = F64;

    fn from_work(w: F64) -> Option<Self> {
        Some(w)
    }
    fn to_work(self) -> F64 {
        self
    }
}

fn wrap(x: &[f64]) -> Vec<F64> {
    x.iter().map(|v| F64(*v)).collect()
}

fn plain(x: &[F64]) -> Vec<f64> {
    x.iter().map(|v| v.0).collect()
}

fn dot(a: &[F64], b: &[F64]) -> f64 {
    a.iter().zip(b.iter()).map(|(x, y)| x.0 * y.0).sum()
}

fn close(a: &[F64], b: &[f64], tol: f64) {
    assert_eq!(a.len(), b.len());
    for (x, y) in a.iter().zip(b.iter()) {
        assert!((x.0 - y).abs() < tol, "{} vs {y}", x.0);
    }
}

fn ramp(n: usize, a: f64, b: f64) -> Vec<F64> {
    (0..n).map(|i| F64(a * i as f64 + b)).collect()
}

// ── restrictions and sparsity ──────────────────────────────────────────────

#[test]
fn restriction_is_adjoint_to_its_transpose() {
    let r = CpuElemRestriction::<F64>::new_offset(2, 2, 2, 3, 6, &[0, 1, 1, 2]).unwrap();
    let (x, y) = (ramp(6, 1.0, 2.0), ramp(8, -0.5, 1.0));
    let mut gathered = wrap(&[0.0; 8]);
    let mut scattered = wrap(&[0.0; 6]);
    r.apply(TransposeMode::NoTranspose, &x, &mut gathered).unwrap();
    r.apply(TransposeMode::Transpose, &y, &mut scattered).unwrap();
    assert_eq!(dot(&gathered, &y), dot(&x, &scattered));
}

#[test]
fn gathering_overwrites_and_scattering_adds() {
    let r = CpuElemRestriction::<F64>::new_offset(1, 2, 1, 1, 2, &[1, 0]).unwrap();
    let mut v = wrap(&[9.0, 9.0]);
    r.apply(TransposeMode::NoTranspose, &wrap(&[1.0, 2.0]), &mut v).unwrap();
    assert_eq!(v, wrap(&[2.0, 1.0]));
    r.apply(TransposeMode::Transpose, &wrap(&[1.0, 2.0]), &mut v).unwrap();
    assert_eq!(v, wrap(&[4.0, 2.0]));
}

#[test]
fn scattering_sums_what_shares_a_target() {
    // node 1 is shared by three local positions, node 2 by none
    let r = CpuElemRestriction::<F64>::new_offset(2, 2, 1, 1, 3, &[1, 0, 1, 1]).unwrap();
    let mut v = wrap(&[10.0, 20.0, 30.0]);
    r.apply(TransposeMode::Transpose, &wrap(&[1.0, 2.0, 3.0, 4.0]), &mut v).unwrap();
    assert_eq!(v, wrap(&[12.0, 28.0, 30.0]));
}

#[test]
fn strided_restriction_follows_its_strides() {
    let r = CpuElemRestriction::<F64>::new_strided(2, 2, 1, 4, [1, 4, 2]).unwrap();
    let mut v = wrap(&[0.0; 4]);
    r.apply(TransposeMode::NoTranspose, &wrap(&[1.0, 2.0, 3.0, 4.0]), &mut v).unwrap();
    assert_eq!(v, wrap(&[1.0, 2.0, 3.0, 4.0]));
}

#[test]
fn face_restriction_is_adjoint_to_its_transpose() {
    let r = CpuFaceElemRestriction::<F64>::new(
        2,
        2,
        4,
        1,
        4,
        vec![(0, 0), (0, 1)],
        vec![0, 2, 1, 3],
        vec![0, 1, 2, 3],
        vec![0, 2, 1, 3],
    )
    .unwrap();
    let (x, y) = (ramp(4, 2.0, 1.0), ramp(4, -1.0, 3.0));
    let mut gathered = wrap(&[0.0; 4]);
    let mut scattered = wrap(&[0.0; 4]);
    r.apply(TransposeMode::NoTranspose, &x, &mut gathered).unwrap();
    r.apply(TransposeMode::Transpose, &y, &mut scattered).unwrap();
    assert_eq!(dot(&gathered, &y), dot(&x, &scattered));
}

#[test]
fn sparsity_is_symmetric_with_a_diagonal() {
    let p = csr_sparsity_from_offset_restriction(2, 2, 1, 1, 3, &[0, 1, 1, 2]).unwrap();
    for i in 0..3 {
        assert!(p.index_of(i, i).is_some());
        for j in 0..3 {
            assert_eq!(p.index_of(i, j).is_some(), p.index_of(j, i).is_some());
        }
    }
}

// ── quadrature ─────────────────────────────────────────────────────────────

#[test]
fn gauss_points_are_symmetric() {
    let (x, w) = gauss_quadrature::<F64>(5).unwrap();
    for i in 0..5 {
        assert_eq!(x[i].0, -x[4 - i].0);
        assert_eq!(w[i].0, w[4 - i].0);
    }
}

#[test]
fn two_gauss_points_have_unit_weights() {
    let (x, w) = gauss_quadrature::<F64>(2).unwrap();
    close(&x, &[-(1.0_f64 / 3.0).sqrt(), (1.0_f64 / 3.0).sqrt()], 1e-14);
    close(&w, &[1.0, 1.0], 1e-14);
}

#[test]
fn lobatto_points_contain_the_ends() {
    for n in 2..6 {
        let x = gauss_lobatto_nodes::<F64>(n).unwrap();
        assert_eq!((x[0].0, x[n - 1].0), (-1.0, 1.0));
    }
}

// ── shape functions ────────────────────────────────────────────────────────

#[test]
fn quadratic_functions_add_up_to_one() {
    let (v, g) = tri_p2_basis(F64(0.3), F64(0.25));
    assert!((plain(&v).iter().sum::<f64>() - 1.0).abs() < 1e-14);
    for d in 0..2 {
        let s: f64 = (0..6).map(|k| g[2 * k + d].0).sum();
        assert!(s.abs() < 1e-14);
    }
    let (v, g) = tet_p2_basis(F64(0.1), F64(0.2), F64(0.3));
    assert!((plain(&v).iter().sum::<f64>() - 1.0).abs() < 1e-14);
    for d in 0..3 {
        let s: f64 = (0..10).map(|k| g[3 * k + d].0).sum();
        assert!(s.abs() < 1e-14);
    }
}

#[test]
fn cubic_segment_functions_add_up_to_one() {
    let (v, _) = line_p3_basis(F64(0.4));
    assert!((plain(&v).iter().sum::<f64>() - 1.0).abs() < 1e-14);
}

#[test]
fn segment_slopes_add_up_to_zero() {
    let (_, quadratic) = line_p2_basis(F64(0.3));
    close(&quadratic, &[-1.8, 1.6, 0.2], 1e-14);
    assert!(plain(&quadratic).iter().sum::<f64>().abs() < 1e-14);
    let (_, cubic) = line_p3_basis(F64(0.4));
    assert!(plain(&cubic).iter().sum::<f64>().abs() < 1e-13);
}

#[test]
fn slopes_at_the_nodes_add_up_to_zero() {
    // Gauss-Lobatto points that coincide with the nodes
    let b = LagrangeBasis::<F64>::new(1, 1, 3, 3, QuadMode::GaussLobatto).unwrap();
    close(b.grad_matrix(), &[-1.5, 2.0, -0.5, -0.5, 0.0, 0.5, 0.5, -2.0, 1.5], 1e-13);
    let mut g = wrap(&[1.0; 3]);
    b.apply(1, false, EvalMode::Grad, &wrap(&[4.0; 3]), &mut g).unwrap();
    close(&g, &[0.0; 3], 1e-12);
}

fn factorial(n: i32) -> f64 {
    (1..=n).map(f64::from).product()
}

#[test]
fn triangle_rules_integrate_their_degree() {
    for (q, degree) in [(1, 1), (3, 2), (4, 3), (6, 4), (7, 5)] {
        let (points, weights) = tri_quadrature::<F64>(q).unwrap();
        for a in 0..=degree {
            for b in 0..=degree - a {
                let sum: f64 = (0..q)
                    .map(|i| weights[i].0 * points[2 * i].0.powi(a) * points[2 * i + 1].0.powi(b))
                    .sum();
                let exact = factorial(a) * factorial(b) / factorial(a + b + 2);
                assert!((sum - exact).abs() < 1e-13, "q={q} a={a} b={b}: {sum} vs {exact}");
            }
        }
    }
}

#[test]
fn tetrahedron_rules_integrate_their_degree() {
    for (q, degree) in [(1, 1), (4, 2), (5, 3)] {
        let (points, weights) = tet_quadrature::<F64>(q).unwrap();
        for a in 0..=degree {
            for b in 0..=degree - a {
                for c in 0..=degree - a - b {
                    let sum: f64 = (0..q)
                        .map(|i| {
                            let p = &points[3 * i..3 * i + 3];
                            weights[i].0 * p[0].0.powi(a) * p[1].0.powi(b) * p[2].0.powi(c)
                        })
                        .sum();
                    let exact =
                        factorial(a) * factorial(b) * factorial(c) / factorial(a + b + c + 3);
                    assert!((sum - exact).abs() < 1e-14, "q={q} a={a} b={b} c={c}");
                }
            }
        }
    }
}

#[test]
fn tensor_weights_add_up_to_the_volume() {
    for (dim, volume) in [(1, 2.0), (2, 4.0), (3, 8.0)] {
        let b = LagrangeBasis::<F64>::new(dim, 1, 2, 3, QuadMode::Gauss).unwrap();
        assert!((plain(b.q_weights()).iter().sum::<f64>() - volume).abs() < 1e-12);
    }
}

#[test]
fn constants_are_interpolated_and_have_no_gradient() {
    let b = LagrangeBasis::<F64>::new(2, 1, 3, 4, QuadMode::Gauss).unwrap();
    let u = wrap(&[2.5; 9]);
    let mut v = wrap(&[0.0; 16]);
    b.apply(1, false, EvalMode::Interp, &u, &mut v).unwrap();
    close(&v, &[2.5; 16], 1e-13);
    let mut g = wrap(&[0.0; 32]);
    b.apply(1, false, EvalMode::Grad, &u, &mut g).unwrap();
    close(&g, &[0.0; 32], 1e-12);
}

#[test]
fn a_table_of_linear_functions_has_exact_values() {
    // two nodes at the ends, one Gauss point in the middle
    let b = LagrangeBasis::<F64>::new(1, 1, 2, 1, QuadMode::Gauss).unwrap();
    close(b.interp_matrix(), &[0.5, 0.5], 1e-15);
    close(b.grad_matrix(), &[-0.5, 0.5], 1e-15);
    close(b.q_weights(), &[2.0], 1e-15);
}

#[test]
fn transposed_weights_of_several_components_are_refused() {
    let b = SimplexBasis::<F64>::new(ElemTopology::Triangle, 1, 2, 3).unwrap();
    let mut v = wrap(&[0.0; 6]);
    assert!(b.apply(1, true, EvalMode::Weight, &wrap(&[0.0; 3]), &mut v).is_err());
    assert_eq!(v, wrap(&[0.0; 6]));
}

#[test]
fn edge_functions_vanish_where_the_ends_balance() {
    // on the line through the midpoint of the first edge both coordinates agree
    let (v, _) = tri_nedelec_p3(F64(0.25), F64(0.5));
    for dof in [3, 8] {
        assert_eq!((v[2 * dof].0, v[2 * dof + 1].0), (0.0, 0.0));
    }
}

#[test]
fn lowest_face_functions_have_unit_flux_through_one_edge() {
    let (v, _) = tri_rt0(F64(0.25), F64(0.75));
    // the edge x + y = 1, opposite to the first vertex
    assert_eq!(v[0].0 + v[1].0, 1.0);
    assert_eq!(v[2].0 + v[3].0, 0.0);
    assert_eq!(v[4].0 + v[5].0, 0.0);
    let (w, _) = tet_rt0(F64(0.25), F64(0.0), F64(0.5));
    // the face y = 0, opposite to the third vertex
    assert_eq!((w[1].0, w[4].0, w[7].0, w[10].0), (0.0, 0.0, -2.0, 0.0));
}

#[test]
fn interior_face_functions_are_turned_edge_functions() {
    let (x, y) = (F64(0.125), F64(0.5));
    let (n, _) = tri_nedelec_p3(x, y);
    let (r, _) = tri_rt2(x, y);
    for dof in [6, 7, 11, 12, 13, 14] {
        assert_eq!(r[2 * dof].0, -n[2 * dof + 1].0);
        assert_eq!(r[2 * dof + 1].0, n[2 * dof].0);
    }
}

// ── inverses ───────────────────────────────────────────────────────────────

fn boxed(x: &[F64]) -> Box<dyn VectorTrait<F64>> {
    Box::new(CpuVector::from_vec(x.to_vec()))
}

fn times(a: &[f64], n: usize, x: &[F64]) -> Vec<F64> {
    (0..n)
        .map(|i| F64((0..n).map(|j| a[i + j * n] * x[j].0).sum()))
        .collect()
}

#[test]
fn dense_inverse_undoes_the_matrix() {
    let a = [4.0, 1.0, 0.0, 1.0, 3.0, -1.0, 2.0, 0.5, 5.0];
    let inv = invert_dense_col_major(&wrap(&a), 3).unwrap();
    let op = CpuFdmDenseInverseOperator::new(3, inv);
    let x = wrap(&[1.0, -2.0, 0.5]);
    let mut y = boxed(&wrap(&[7.0; 3]));
    op.apply(&boxed(&times(&a, 3, &x)), &mut y).unwrap();
    close(y.as_slice(), &plain(&x), 1e-13);
    let z = wrap(&[0.5, 1.0, 2.0]);
    let mut t = boxed(&wrap(&[0.0; 3]));
    op.apply(&boxed(&x), &mut y).unwrap();
    op.apply_with_transpose(OperatorTransposeRequest::Adjoint, &boxed(&z), &mut t).unwrap();
    assert!((dot(y.as_slice(), &z) - dot(&x, t.as_slice())).abs() < 1e-13);
}

#[test]
fn a_singular_matrix_is_refused() {
    let e = invert_dense_col_major(&wrap(&[1.0, 2.0, 2.0, 4.0]), 2).unwrap_err();
    assert!(matches!(e, reed::error::ReedError::Operator(_)));
    assert!(invert_dense_col_major(&wrap(&[1.0]), 2).is_err());
}

#[test]
fn jacobi_inverse_scales_by_its_diagonal() {
    let op = CpuFdmJacobiInverseOperator::new(wrap(&[2.0, 0.5]));
    let mut y = boxed(&wrap(&[1.0, 1.0]));
    op.apply_add(&boxed(&wrap(&[3.0, 4.0])), &mut y).unwrap();
    assert_eq!(y.as_slice(), &wrap(&[7.0, 3.0])[..]);
    let mut d = boxed(&wrap(&[0.0, 0.0]));
    op.linear_assemble_diagonal(&mut d).unwrap();
    assert_eq!(d.as_slice(), &wrap(&[2.0, 0.5])[..]);
    assert!(op.apply(&boxed(&wrap(&[1.0])), &mut y).is_err());
}

#[test]
fn eigenpairs_decompose_a_symmetric_matrix() {
    let a = [2.0, -1.0, 0.0, -1.0, 2.0, -1.0, 0.0, -1.0, 2.0];
    let (v, l) = jacobi_eigen_symmetric(&wrap(&a), 3, 50);
    let r = 2.0_f64.sqrt();
    close(&l, &[2.0 - r, 2.0, 2.0 + r], 1e-12);
    for i in 0..3 {
        for j in 0..3 {
            let rows: f64 = (0..3).map(|k| v[i + 3 * k].0 * v[j + 3 * k].0).sum();
            let cols: f64 = (0..3).map(|k| v[k + 3 * i].0 * v[k + 3 * j].0).sum();
            let back: f64 = (0..3).map(|k| v[i + 3 * k].0 * l[k].0 * v[j + 3 * k].0).sum();
            let e = if i == j { 1.0 } else { 0.0 };
            assert!((rows - e).abs() < 1e-12);
            assert!((cols - e).abs() < 1e-12);
            assert!((back - a[i + 3 * j]).abs() < 1e-12);
        }
    }
}

#[test]
fn tensor_inverse_undoes_the_mass_operator() {
    let basis = LagrangeBasis::<F64>::new(2, 1, 3, 4, QuadMode::Gauss).unwrap();
    let (interp, grad, weights, p, q) = basis.tensor_fdm_1d_data().unwrap();
    let m = plain(&gram_of(interp, weights, p, q));
    let n = p * p;
    let offsets: Vec<i32> = (0..n as i32).collect();
    for dim in [1usize, 2] {
        let cells = if dim == 1 { p } else { n };
        let r = CpuElemRestriction::<F64>::new_offset(1, cells, 1, 1, cells, &offsets[..cells])
            .unwrap();
        let op = CpuFdmTensorInverseOperator::new(
            interp,
            grad,
            weights,
            p,
            q,
            dim,
            1,
            FdmOperatorKind::Mass,
            Box::new(r),
        )
        .unwrap();
        let u = ramp(cells, 0.25, -1.0);
        let mut mu = wrap(&vec![0.0; cells]);
        for x in 0..cells {
            for y in 0..cells {
                let e = if dim == 1 {
                    m[x + y * p]
                } else {
                    m[x / p + y / p * p] * m[x % p + y % p * p]
                };
                mu[x].0 += e * u[y].0;
            }
        }
        let mut back = boxed(&wrap(&vec![0.0; cells]));
        op.apply(&boxed(&mu), &mut back).unwrap();
        close(back.as_slice(), &plain(&u), 1e-10);
        // the inverse is symmetric
        let w = ramp(cells, -0.5, 2.0);
        let mut iw = boxed(&wrap(&vec![0.0; cells]));
        op.apply_with_transpose(OperatorTransposeRequest::Adjoint, &boxed(&w), &mut iw).unwrap();
        let mut iu = boxed(&wrap(&vec![0.0; cells]));
        op.apply(&boxed(&u), &mut iu).unwrap();
        let (l, r) = (dot(iu.as_slice(), &w), dot(&u, iw.as_slice()));
        assert!((l - r).abs() < 1e-8 * (1.0 + l.abs()));
    }
}
