//! Dense inverses.

use reed::cpu::fdm_inverse as dense;
use reed::error::ReedResult;
use reed::scalar::Real;

/// Double-precision numbers.
#[derive(Clone, Copy, Debug, PartialEq, PartialOrd)]
struct F64(f64);

impl Real for F64 {
    fn zero() -> Self {
        F64(0.0)
    }
    fn one() -> Self {
        F64(1.0)
    }
    fn from_int(n: i64) -> Self {
        F64(n as f64)
    }
    fn pi() -> Self {
        F64(std::f64::consts::PI)
    }
    fn epsilon() -> Self {
        F64(f64::EPSILON)
    }
    fn add(self, rhs: Self) -> Self {
        F64(self.0 + rhs.0)
    }
    fn sub(self, rhs: Self) -> Self {
        F64(self.0 - rhs.0)
    }
    fn mul(self, rhs: Self) -> Self {
        F64(self.0 * rhs.0)
    }
    fn div(self, rhs: Self) -> Self {
        F64(self.0 / rhs.0)
    }
    fn neg(self) -> Self {
        F64(-self.0)
    }
    fn abs(self) -> Self {
        F64(self.0.abs())
    }
    fn sqrt(self) -> Self {
        F64(self.0.sqrt())
    }
    fn cos(self) -> Self {
        F64(self.0.cos())
    }
    fn lt(self, rhs: Self) -> bool {
        self.0 < rhs.0
    }
    fn le(self, rhs: Self) -> bool {
        self.0 <= rhs.0
    }
    fn eq_value(self, rhs: Self) -> bool {
        self.0 == rhs.0
    }
    fn to_text(self) -> String {
        format!("{}", self.0)
    }
}

fn wrap(x: &[f64]) -> Vec<F64> {
    x.iter().map(|v| F64(*v)).collect()
}

fn plain(x: &[F64]) -> Vec<f64> {
    x.iter().map(|v| v.0).collect()
}

fn invert_dense_col_major(a: &[f64], n: usize) -> ReedResult<Vec<f64>> {
    Ok(plain(&dense::invert_dense_col_major(&wrap(a), n)?))
}

#[test]
fn invert_identity() {
    let n = 3usize;
    let mut a = vec![0.0f64; n * n];
    for i in 0..n {
        a[i + i * n] = 1.0;
    }
    let inv = invert_dense_col_major(&a, n).unwrap();
    for i in 0..n {
        for j in 0..n {
            let e = if i == j { 1.0 } else { 0.0 };
            assert!((inv[i + j * n] - e).abs() < 1e-12, "({i},{j})");
        }
    }
}

#[test]
fn invert_2x2_matches_formula() {
    let a = vec![2.0f64, 1.0, 1.0, 3.0]; // column0 [2,1], column1 [1,3] -> A = [[2,1],[1,3]]
    let inv = invert_dense_col_major(&a, 2).unwrap();
    let det = 2.0 * 3.0 - 1.0 * 1.0;
    assert!((inv[0 + 0 * 2] - 3.0 / det).abs() < 1e-12);
    assert!((inv[1 + 0 * 2] - (-1.0) / det).abs() < 1e-12);
    assert!((inv[0 + 1 * 2] - (-1.0) / det).abs() < 1e-12);
    assert!((inv[1 + 1 * 2] - 2.0 / det).abs() < 1e-12);
}
