//! Restrictions of global vectors to elements.

use reed::cpu::elem_restriction::CpuElemRestriction;
use reed::csr::CsrPattern;
use reed::elem_restriction::ElemRestrictionTrait;
use reed::enums::TransposeMode;
use reed::error::ReedResult;
use reed::scalar::Real;

/// Double-precision numbers.
#[derive(Clone, Copy, Debug, PartialEq, PartialOrd)]
struct F64(f64);

impl Real for F64 {
    fn zero() -> Self {
        F64(0.0)
    }
    fn one() -> Self {
        F64(1.0)
    }
    fn from_int(n: i64) -> Self {
        F64(n as f64)
    }
    fn pi() -> Self {
        F64(std::f64::consts::PI)
    }
    fn epsilon() -> Self {
        F64(f64::EPSILON)
    }
    fn add(self, rhs: Self) -> Self {
        F64(self.0 + rhs.0)
    }
    fn sub(self, rhs: Self) -> Self {
        F64(self.0 - rhs.0)
    }
    fn mul(self, rhs: Self) -> Self {
        F64(self.0 * rhs.0)
    }
    fn div(self, rhs: Self) -> Self {
        F64(self.0 / rhs.0)
    }
    fn neg(self) -> Self {
        F64(-self.0)
    }
    fn abs(self) -> Self {
        F64(self.0.abs())
    }
    fn sqrt(self) -> Self {
        F64(self.0.sqrt())
    }
    fn cos(self) -> Self {
        F64(self.0.cos())
    }
    fn lt(self, rhs: Self) -> bool {
        self.0 < rhs.0
    }
    fn le(self, rhs: Self) -> bool {
        self.0 <= rhs.0
    }
    fn eq_value(self, rhs: Self) -> bool {
        self.0 == rhs.0
    }
    fn to_text(self) -> String {
        format!("{}", self.0)
    }
}

fn wrap(x: &[f64]) -> Vec<F64> {
    x.iter().map(|v| F64(*v)).collect()
}

fn plain(x: &[F64]) -> Vec<f64> {
    x.iter().map(|v| v.0).collect()
}

/// A restriction over plain numbers.
struct Plain<E>(E);

impl<E: ElemRestrictionTrait<F64> + ?Sized> Plain<Box<E>> {
    fn num_elements(&self) -> usize {
        self.0.num_elements()
    }
    fn num_dof_per_elem(&self) -> usize {
        self.0.num_dof_per_elem()
    }
    fn num_global_dof(&self) -> usize {
        self.0.num_global_dof()
    }
    fn num_comp(&self) -> usize {
        self.0.num_comp()
    }
    fn local_size(&self) -> usize {
        self.0.local_size()
    }
    fn assembled_csr_pattern(&self) -> ReedResult<CsrPattern> {
        self.0.assembled_csr_pattern()
    }
    fn apply(&self, mode: TransposeMode, u: &[f64], v: &mut [f64]) -> ReedResult<()> {
        let mut w = wrap(v);
        let r = self.0.apply(mode, &wrap(u), &mut w);
        v.copy_from_slice(&plain(&w));
        r
    }
}

fn offset(
    num_elem: usize,
    elemsize: usize,
    ncomp: usize,
    comp_stride: usize,
    lsize: usize,
    offsets: &[i32],
) -> ReedResult<Plain<Box<CpuElemRestriction<F64>>>> {
    CpuElemRestriction::new_offset(num_elem, elemsize, ncomp, comp_stride, lsize, offsets)
        .map(|r| Plain(Box::new(r)))
}

#[test]
fn assembled_csr_pattern_line_two_p1_elements() {
    let r = offset(2, 2, 1, 1, 3, &[0, 1, 1, 2]).unwrap();
    let p = r.assembled_csr_pattern().unwrap();
    assert_eq!(p.nrows, 3);
    assert_eq!(p.nnz(), 7);
}

#[test]
fn assembled_csr_pattern_ncomp2_one_segment() {
    let r = offset(1, 2, 2, 3, 10, &[0, 1]).unwrap();
    let p = r.assembled_csr_pattern().unwrap();
    assert_eq!(p.nnz(), 16);
}

#[test]
fn test_offset_restriction_roundtrip() {
    let r = offset(2, 2, 1, 1, 3, &[0, 1, 1, 2]).unwrap();
    let global = vec![10.0, 20.0, 30.0];
    let mut local = vec![0.0; 4];
    r.apply(TransposeMode::NoTranspose, &global, &mut local)
        .unwrap();
    assert_eq!(local, vec![10.0, 20.0, 20.0, 30.0]);

    let mut gathered = vec![0.0; 3];
    r.apply(TransposeMode::Transpose, &local, &mut gathered)
        .unwrap();
    assert_eq!(gathered, vec![10.0, 40.0, 30.0]);
}
