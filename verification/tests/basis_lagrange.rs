//! Tensor-product bases on segments, squares and cubes.

use reed::basis::BasisTrait;
use reed::cpu::basis_lagrange::LagrangeBasis;
use reed::cpu::quadrature as table;
use reed::cpu::tensor::tensor_contract_strided;
use reed::enums::{EvalMode, QuadMode};
use reed::error::ReedResult;
use reed::scalar::{Real, Scalar};

/// Double-precision numbers.
#[derive(Clone, Copy, Debug, PartialEq, PartialOrd)]
struct F64(f64);

impl Real for F64 {
    fn zero() -> Self {
        F64(0.0)
    }
    fn one() -> Self {
        F64(1.0)
    }
    fn from_int(n: i64) -> Self {
        F64(n as f64)
    }
    fn pi() -> Self {
        F64(std::f64::consts::PI)
    }
    fn epsilon() -> Self {
        F64(f64::EPSILON)
    }
    fn add(self, rhs: Self) -> Self {
        F64(self.0 + rhs.0)
    }
    fn sub(self, rhs: Self) -> Self {
        F64(self.0 - rhs.0)
    }
    fn mul(self, rhs: Self) -> Self {
        F64(self.0 * rhs.0)
    }
    fn div(self, rhs: Self) -> Self {
        F64(self.0 / rhs.0)
    }
    fn neg(self) -> Self {
        F64(-self.0)
    }
    fn abs(self) -> Self {
        F64(self.0.abs())
    }
    fn sqrt(self) -> Self {
        F64(self.0.sqrt())
    }
    fn cos(self) -> Self {
        F64(self.0.cos())
    }
    fn lt(self, rhs: Self) -> bool {
        self.0 < rhs.0
    }
    fn le(self, rhs: Self) -> bool {
        self.0 <= rhs.0
    }
    fn eq_value(self, rhs: Self) -> bool {
        self.0 == rhs.0
    }
    fn to_text(self) -> String {
        format!("{}", self.0)
    }
}


impl Scalar for F64 {
    type Work = F64;

    fn from_work(w: F64) -> Option<Self> {
        Some(w)
    }
    fn to_work(self) -> F64 {
        self
    }
}

fn wrap(x: &[f64]) -> Vec<F64> {
    x.iter().map(|v| F64(*v)).collect()
}

fn plain(x: &[F64]) -> Vec<f64> {
    x.iter().map(|v| v.0).collect()
}

/// A basis over plain numbers.
struct Plain<B>(B);

impl<B: BasisTrait<F64>> Plain<B> {
    fn dim(&self) -> usize {
        self.0.dim()
    }
    fn num_dof(&self) -> usize {
        self.0.num_dof()
    }
    fn num_qpoints(&self) -> usize {
        self.0.num_qpoints()
    }
    fn num_comp(&self) -> usize {
        self.0.num_comp()
    }
    fn q_weights(&self) -> Vec<f64> {
        plain(self.0.q_weights())
    }
    fn q_ref(&self) -> Vec<f64> {
        plain(self.0.q_ref())
    }
    fn apply(
        &self,
        num_elem: usize,
        transpose: bool,
        mode: EvalMode,
        u: &[f64],
        v: &mut [f64],
    ) -> ReedResult<()> {
        let mut w = wrap(v);
        let r = self.0.apply(num_elem, transpose, mode, &wrap(u), &mut w);
        for (x, y) in v.iter_mut().zip(w.iter()) {
            *x = y.0;
        }
        r
    }
}

fn lagrange(
    dim: usize,
    ncomp: usize,
    p: usize,
    q: usize,
    qmode: QuadMode,
) -> ReedResult<Plain<LagrangeBasis<F64>>> {
    LagrangeBasis::new(dim, ncomp, p, q, qmode).map(Plain)
}

impl Plain<LagrangeBasis<F64>> {
    fn interp(&self) -> Vec<f64> {
        plain(self.0.interp_matrix())
    }
    fn grad(&self) -> Vec<f64> {
        plain(self.0.grad_matrix())
    }
}

fn gauss_quadrature(q: usize) -> ReedResult<(Vec<f64>, Vec<f64>)> {
    let (a, b): (Vec<F64>, Vec<F64>) = table::gauss_quadrature(q)?;
    Ok((plain(&a), plain(&b)))
}

#[allow(clippy::too_many_arguments)]
fn contract(
    basis: &[f64],
    u: &[f64],
    u_stride: usize,
    v: &mut [f64],
    v_stride: usize,
    rows: usize,
    cols: usize,
    transpose: bool,
) {
    let mut w = wrap(v);
    tensor_contract_strided(
        &wrap(basis),
        &wrap(u),
        u_stride,
        &mut w,
        v_stride,
        rows,
        cols,
        transpose,
    );
    v.copy_from_slice(&plain(&w));
}

#[test]
fn test_gauss_weights_sum_to_two() {
    let (_, weights) = gauss_quadrature(3).unwrap();
    assert!((weights.iter().sum::<f64>() - 2.0).abs() < 1.0e-12);
}

#[test]
fn test_interp_of_constant() {
    let basis = lagrange(1, 1, 3, 4, QuadMode::Gauss).unwrap();
    let u = vec![2.0; 3];
    let mut v = vec![0.0; 4];
    basis.apply(1, false, EvalMode::Interp, &u, &mut v).unwrap();
    for value in v {
        assert!((value - 2.0).abs() < 1.0e-12);
    }
}

#[test]
fn test_2d_weights_sum_to_four() {
    let basis = lagrange(2, 1, 2, 2, QuadMode::Gauss).unwrap();
    assert!((basis.q_weights().iter().sum::<f64>() - 4.0).abs() < 1.0e-12);
    assert_eq!(basis.num_dof(), 4);
    assert_eq!(basis.num_qpoints(), 4);
}

#[test]
fn test_2d_interp_of_constant() {
    let basis = lagrange(2, 1, 2, 2, QuadMode::Gauss).unwrap();
    let u = vec![3.5; 4];
    let mut v = vec![0.0; 4];
    basis.apply(1, false, EvalMode::Interp, &u, &mut v).unwrap();
    for value in v {
        assert!((value - 3.5).abs() < 1.0e-12);
    }
}

#[test]
fn test_2d_grad_of_linear_function() {
    let basis = lagrange(2, 1, 2, 2, QuadMode::Gauss).unwrap();
    let nodes = [-1.0_f64, 1.0];
    let mut u = Vec::new();
    for &y in &nodes {
        for &x in &nodes {
            u.push(2.0 * x - 3.0 * y + 1.0);
        }
    }
    let mut grad = vec![0.0; 4 * 2];
    basis
        .apply(1, false, EvalMode::Grad, &u, &mut grad)
        .unwrap();
    for qpt in 0..4 {
        assert!((grad[qpt * 2] - 2.0).abs() < 1.0e-12);
        assert!((grad[qpt * 2 + 1] + 3.0).abs() < 1.0e-12);
    }
}

#[test]
fn test_3d_weights_sum_to_eight() {
    let basis = lagrange(3, 1, 2, 2, QuadMode::Gauss).unwrap();
    assert!((basis.q_weights().iter().sum::<f64>() - 8.0).abs() < 1.0e-12);
    assert_eq!(basis.num_dof(), 8);
    assert_eq!(basis.num_qpoints(), 8);
}

#[test]
fn test_3d_grad_of_linear_function() {
    let basis = lagrange(3, 1, 2, 2, QuadMode::Gauss).unwrap();
    let nodes = [-1.0_f64, 1.0];
    let mut u = Vec::new();
    for &z in &nodes {
        for &y in &nodes {
            for &x in &nodes {
                u.push(2.0 * x - 3.0 * y + 4.0 * z + 1.0);
            }
        }
    }
    let mut grad = vec![0.0; 8 * 3];
    basis
        .apply(1, false, EvalMode::Grad, &u, &mut grad)
        .unwrap();
    for qpt in 0..8 {
        assert!((grad[qpt * 3] - 2.0).abs() < 1.0e-12);
        assert!((grad[qpt * 3 + 1] + 3.0).abs() < 1.0e-12);
        assert!((grad[qpt * 3 + 2] - 4.0).abs() < 1.0e-12);
    }
}

#[test]
fn test_3d_interp_transpose_matches_naive() {
    let basis = lagrange(3, 1, 2, 2, QuadMode::Gauss).unwrap();
    let u = vec![0.5, -1.0, 2.0, 0.25, 1.5, -0.75, 0.1, 3.0];
    let mut v = vec![0.0; 8];
    basis.apply(1, true, EvalMode::Interp, &u, &mut v).unwrap();

    let mut expected = vec![0.0; 8];
    for pz in 0..2 {
        for py in 0..2 {
            for px in 0..2 {
                let mut sum = 0.0;
                for qz in 0..2 {
                    for qy in 0..2 {
                        for qx in 0..2 {
                            let qpt = (qz * 4) + (qy * 2) + qx;
                            sum += basis.interp()[qx * 2 + px]
                                * basis.interp()[qy * 2 + py]
                                * basis.interp()[qz * 2 + pz]
                                * u[qpt];
                        }
                    }
                }
                expected[pz * 4 + py * 2 + px] = sum;
            }
        }
    }

    for (got, want) in v.iter().zip(expected.iter()) {
        assert!((got - want).abs() < 1.0e-12);
    }
}

#[test]
fn test_3d_grad_transpose_matches_naive() {
    let basis = lagrange(3, 1, 2, 2, QuadMode::Gauss).unwrap();
    let u = vec![
        0.5, -1.0, 2.0, 0.25, 1.5, -0.75, 0.1, 3.0, -2.0, 1.25, -0.5, 0.75, -1.0, 0.2, 1.8,
        2.2, -1.3, 0.4, 0.6, 0.7, -0.8, -0.9, 1.1, 2.4,
    ];
    let mut v = vec![0.0; 8];
    basis.apply(1, true, EvalMode::Grad, &u, &mut v).unwrap();

    let mut expected = vec![0.0; 8];
    for pz in 0..2 {
        for py in 0..2 {
            for px in 0..2 {
                let mut sum = 0.0;
                for qz in 0..2 {
                    for qy in 0..2 {
                        for qx in 0..2 {
                            let qpt = (qz * 4) + (qy * 2) + qx;
                            let ux = u[qpt * 3];
                            let uy = u[qpt * 3 + 1];
                            let uz = u[qpt * 3 + 2];
                            sum += basis.grad()[qx * 2 + px]
                                * basis.interp()[qy * 2 + py]
                                * basis.interp()[qz * 2 + pz]
                                * ux;
                            sum += basis.interp()[qx * 2 + px]
                                * basis.grad()[qy * 2 + py]
                                * basis.interp()[qz * 2 + pz]
                                * uy;
                            sum += basis.interp()[qx * 2 + px]
                                * basis.interp()[qy * 2 + py]
                                * basis.grad()[qz * 2 + pz]
                                * uz;
                        }
                    }
                }
                expected[pz * 4 + py * 2 + px] = sum;
            }
        }
    }

    for (got, want) in v.iter().zip(expected.iter()) {
        assert!((got - want).abs() < 1.0e-12);
    }
}

/// Discrete inner-product identity: ⟨D u, w⟩ = ⟨u, Dᵀ w⟩ for forward/transpose Div.
#[test]
fn test_div_forward_transpose_adjoint_identity() {
    let basis = lagrange(2, 2, 2, 2, QuadMode::Gauss).unwrap();
    let num_elem = 1usize;
    let nd = num_elem * basis.num_dof() * basis.num_comp();
    let nq = num_elem * basis.num_qpoints();
    let u: Vec<f64> = (0..nd).map(|i| (i as f64) * 0.25 - 1.0).collect();
    let w: Vec<f64> = (0..nq).map(|i| (i as f64) * 0.1 + 0.3).collect();

    let mut div_u = vec![0.0_f64; nq];
    basis
        .apply(num_elem, false, EvalMode::Div, &u, &mut div_u)
        .unwrap();

    let mut dt_w = vec![0.0_f64; nd];
    basis
        .apply(num_elem, true, EvalMode::Div, &w, &mut dt_w)
        .unwrap();

    let lhs: f64 = u.iter().zip(dt_w.iter()).map(|(a, b)| a * b).sum();
    let rhs: f64 = div_u.iter().zip(w.iter()).map(|(a, b)| a * b).sum();
    assert!((lhs - rhs).abs() < 1e-9 * (1.0 + lhs.abs()));
}

#[test]
fn test_curl_2d_forward_transpose_adjoint_identity() {
    let basis = lagrange(2, 2, 2, 2, QuadMode::Gauss).unwrap();
    let num_elem = 1usize;
    let nd = num_elem * basis.num_dof() * basis.num_comp();
    let nq = num_elem * basis.num_qpoints();
    let u: Vec<f64> = (0..nd).map(|i| (i as f64) * 0.11 - 0.4).collect();
    let w: Vec<f64> = (0..nq).map(|i| (i as f64) * 0.07 + 0.2).collect();

    let mut curl_u = vec![0.0_f64; nq];
    basis
        .apply(num_elem, false, EvalMode::Curl, &u, &mut curl_u)
        .unwrap();

    let mut ct_w = vec![0.0_f64; nd];
    basis
        .apply(num_elem, true, EvalMode::Curl, &w, &mut ct_w)
        .unwrap();

    let lhs: f64 = u.iter().zip(ct_w.iter()).map(|(a, b)| a * b).sum();
    let rhs: f64 = curl_u.iter().zip(w.iter()).map(|(a, b)| a * b).sum();
    assert!((lhs - rhs).abs() < 1e-9 * (1.0 + lhs.abs()));
}

#[test]
fn test_curl_3d_forward_transpose_adjoint_identity() {
    let basis = lagrange(3, 3, 2, 2, QuadMode::Gauss).unwrap();
    let num_elem = 1usize;
    let nd = num_elem * basis.num_dof() * basis.num_comp();
    let nq = num_elem * basis.num_qpoints();
    let u: Vec<f64> = (0..nd).map(|i| (i as f64) * 0.09 - 0.5).collect();
    let w: Vec<f64> = (0..nq * 3).map(|i| (i as f64) * 0.03 + 0.1).collect();

    let mut curl_u = vec![0.0_f64; nq * 3];
    basis
        .apply(num_elem, false, EvalMode::Curl, &u, &mut curl_u)
        .unwrap();

    let mut ct_w = vec![0.0_f64; nd];
    basis
        .apply(num_elem, true, EvalMode::Curl, &w, &mut ct_w)
        .unwrap();

    let lhs: f64 = u.iter().zip(ct_w.iter()).map(|(a, b)| a * b).sum();
    let rhs: f64 = curl_u.iter().zip(w.iter()).map(|(a, b)| a * b).sum();
    assert!((lhs - rhs).abs() < 1e-8 * (1.0 + lhs.abs()));
}

#[test]
fn test_tensor_contract_strided_matches_dense_reference() {
    let basis: [f64; 12] = [
        1.0_f64, 2.0_f64, 3.0_f64, 4.0_f64, 5.0_f64, 6.0_f64, 7.0_f64, 8.0_f64, 9.0_f64,
        10.0_f64, 11.0_f64, 12.0_f64,
    ];
    let u: [f64; 8] = [
        2.0_f64, -99.0_f64, -1.0_f64, -99.0_f64, 0.5_f64, -99.0_f64, 3.0_f64, -99.0_f64,
    ];
    let mut v: [f64; 6] = [0.0_f64; 6];

    contract(&basis, &u, 2, &mut v, 2, 3, 4, false);

    assert!((v[0] - 13.5_f64).abs() < 1.0e-12);
    assert!((v[2] - 31.5_f64).abs() < 1.0e-12);
    assert!((v[4] - 49.5_f64).abs() < 1.0e-12);

    let u_t: [f64; 6] = [1.0_f64, -99.0_f64, -2.0_f64, -99.0_f64, 0.5_f64, -99.0_f64];
    let mut v_t: [f64; 8] = [0.0_f64; 8];

    contract(&basis, &u_t, 2, &mut v_t, 2, 3, 4, true);

    assert!((v_t[0] + 4.5_f64).abs() < 1.0e-12);
    assert!((v_t[2] + 5.0_f64).abs() < 1.0e-12);
    assert!((v_t[4] + 5.5_f64).abs() < 1.0e-12);
    assert!((v_t[6] + 6.0_f64).abs() < 1.0e-12);
}

#[test]
fn weight_transpose_matches_interp_transpose_scalar() {
    let b = lagrange(1, 1, 2, 2, QuadMode::Gauss).unwrap();
    assert_eq!(b.num_comp(), 1);
    let ne = 2usize;
    let u: Vec<f64> = (0..ne * b.num_qpoints())
        .map(|i| 0.1 * (i + 1) as f64)
        .collect();
    let mut v_w = vec![0.0_f64; ne * b.num_dof() * b.num_comp()];
    let mut v_i = vec![0.0_f64; ne * b.num_dof() * b.num_comp()];
    b.apply(ne, true, EvalMode::Weight, &u, &mut v_w).unwrap();
    b.apply(ne, true, EvalMode::Interp, &u, &mut v_i).unwrap();
    assert_eq!(v_w.len(), v_i.len());
    for i in 0..v_w.len() {
        assert!(
            (v_w[i] - v_i[i]).abs() < 1e-14,
            "i={i} w={} i={}",
            v_w[i],
            v_i[i]
        );
    }
}
