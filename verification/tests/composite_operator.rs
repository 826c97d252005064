//! Sums of operators.

use reed::cpu::composite_operator::{CompositeOperator, CompositeOperatorBorrowed};
use reed::cpu::fdm_inverse::CpuFdmJacobiInverseOperator;
use reed::cpu::vector::CpuVector;
use reed::csr::{CsrMatrix, CsrPattern};
use reed::error::{ReedError, ReedResult};
use reed::matrix::CeedMatrix;
use reed::operator::{
    default_apply_add_with_transpose, default_apply_with_transpose, operator_error, ElementInverse,
    FieldBuffer, OperatorAssembleKind, OperatorTrait, OperatorTransposeRequest,
};
use reed::scalar::Real;
use reed::vector::VectorTrait;

/// Double-precision numbers.
#[derive(Clone, Copy, Debug, PartialEq, PartialOrd)]
struct F64(f64);

impl Real for F64 {
    fn zero() -> Self {
        F64(0.0)
    }
    fn one() -> Self {
        F64(1.0)
    }
    fn from_int(n: i64) -> Self {
        F64(n as f64)
    }
    fn pi() -> Self {
        F64(std::f64::consts::PI)
    }
    fn epsilon() -> Self {
        F64(f64::EPSILON)
    }
    fn add(self, rhs: Self) -> Self {
        F64(self.0 + rhs.0)
    }
    fn sub(self, rhs: Self) -> Self {
        F64(self.0 - rhs.0)
    }
    fn mul(self, rhs: Self) -> Self {
        F64(self.0 * rhs.0)
    }
    fn div(self, rhs: Self) -> Self {
        F64(self.0 / rhs.0)
    }
    fn neg(self) -> Self {
        F64(-self.0)
    }
    fn abs(self) -> Self {
        F64(self.0.abs())
    }
    fn sqrt(self) -> Self {
        F64(self.0.sqrt())
    }
    fn cos(self) -> Self {
        F64(self.0.cos())
    }
    fn lt(self, rhs: Self) -> bool {
        self.0 < rhs.0
    }
    fn le(self, rhs: Self) -> bool {
        self.0 <= rhs.0
    }
    fn eq_value(self, rhs: Self) -> bool {
        self.0 == rhs.0
    }
    fn to_text(self) -> String {
        format!("{}", self.0)
    }
}

fn wrap(x: &[f64]) -> Vec<F64> {
    x.iter().map(|v| F64(*v)).collect()
}

type Vector = Box<dyn VectorTrait<F64>>;

fn vector(x: &[f64]) -> Vector {
    Box::new(CpuVector::from_vec(wrap(x)))
}

fn named(name: &str, values: &[f64]) -> FieldBuffer<F64> {
    FieldBuffer {
        name: name.to_string(),
        vector: vector(values),
    }
}

/// `scale` times the identity on `n` components; its diagonal is `scale` throughout.
struct ScaledIdentity {
    n: usize,
    scale: f64,
    hint: usize,
    assembles_diagonal: bool,
    named_only: bool,
    ready: bool,
}

fn scale_op(n: usize, scale: f64) -> ScaledIdentity {
    ScaledIdentity {
        n,
        scale,
        hint: n,
        assembles_diagonal: true,
        named_only: false,
        ready: true,
    }
}

/// Reports no supported kind of assembly.
fn no_assemble_kinds_op(n: usize, scale: f64) -> ScaledIdentity {
    ScaledIdentity {
        assembles_diagonal: false,
        ..scale_op(n, scale)
    }
}

/// Reports a length that need not be its own.
fn mismatched_hint_op(n: usize, hint: usize, scale: f64) -> ScaledIdentity {
    ScaledIdentity {
        hint,
        ..scale_op(n, scale)
    }
}

/// Works on named vectors only.
fn named_buffers_only_op(scale: f64) -> ScaledIdentity {
    ScaledIdentity {
        named_only: true,
        ..scale_op(3, scale)
    }
}

/// Is never ready.
fn fail_check_op() -> ScaledIdentity {
    ScaledIdentity {
        ready: false,
        ..scale_op(3, 1.0)
    }
}

impl ScaledIdentity {
    fn add_to(&self, x: &[F64], y: &mut [F64]) {
        for i in 0..x.len() {
            y[i].0 += self.scale * x[i].0;
        }
    }
}

impl OperatorTrait<F64> for ScaledIdentity {
    fn apply(&self, x: &Vector, y: &mut Vector) -> ReedResult<()> {
        y.set_value(F64(0.0))?;
        self.apply_add(x, y)
    }

    fn apply_add(&self, x: &Vector, y: &mut Vector) -> ReedResult<()> {
        if self.named_only {
            return Err(operator_error("use apply_field_buffers"));
        }
        self.add_to(x.as_slice(), y.as_mut_slice());
        Ok(())
    }

    fn apply_with_transpose(
        &self,
        _request: OperatorTransposeRequest,
        x: &Vector,
        y: &mut Vector,
    ) -> ReedResult<()> {
        self.apply(x, y)
    }

    fn apply_add_with_transpose(
        &self,
        _request: OperatorTransposeRequest,
        x: &Vector,
        y: &mut Vector,
    ) -> ReedResult<()> {
        self.apply_add(x, y)
    }

    fn apply_field_buffers(
        &self,
        inputs: &Vec<FieldBuffer<F64>>,
        outputs: &mut Vec<FieldBuffer<F64>>,
    ) -> ReedResult<()> {
        for y in outputs.iter_mut() {
            y.vector.set_value(F64(0.0))?;
        }
        self.apply_add_field_buffers(inputs, outputs)
    }

    fn apply_add_field_buffers(
        &self,
        inputs: &Vec<FieldBuffer<F64>>,
        outputs: &mut Vec<FieldBuffer<F64>>,
    ) -> ReedResult<()> {
        let x = inputs.iter().find(|b| b.name == "x");
        let y = outputs.iter_mut().find(|b| b.name == "x");
        match (x, y) {
            (Some(x), Some(y)) if x.vector.len() == y.vector.len() => {
                self.add_to(x.vector.as_slice(), y.vector.as_mut_slice());
                Ok(())
            }
            _ => Err(operator_error("missing or mismatched field 'x'")),
        }
    }

    fn apply_field_buffers_with_transpose(
        &self,
        _request: OperatorTransposeRequest,
        inputs: &Vec<FieldBuffer<F64>>,
        outputs: &mut Vec<FieldBuffer<F64>>,
    ) -> ReedResult<()> {
        self.apply_field_buffers(inputs, outputs)
    }

    fn apply_add_field_buffers_with_transpose(
        &self,
        _request: OperatorTransposeRequest,
        inputs: &Vec<FieldBuffer<F64>>,
        outputs: &mut Vec<FieldBuffer<F64>>,
    ) -> ReedResult<()> {
        self.apply_add_field_buffers(inputs, outputs)
    }

    fn linear_assemble_diagonal(&self, assembled: &mut Vector) -> ReedResult<()> {
        assembled.set_value(F64(0.0))?;
        self.linear_assemble_add_diagonal(assembled)
    }

    fn linear_assemble_add_diagonal(&self, assembled: &mut Vector) -> ReedResult<()> {
        if assembled.len() != self.n {
            return Err(operator_error("linear_assemble_add_diagonal: length"));
        }
        for d in assembled.as_mut_slice().iter_mut() {
            d.0 += self.scale;
        }
        Ok(())
    }

    fn global_vector_len_hint(&self) -> Option<usize> {
        Some(self.hint)
    }

    fn requires_field_named_buffers(&self) -> bool {
        self.named_only
    }

    fn check_ready(&self) -> ReedResult<()> {
        if self.ready {
            Ok(())
        } else {
            Err(operator_error("check_ready failure"))
        }
    }

    fn operator_supports_assemble(&self, kind: OperatorAssembleKind) -> bool {
        self.assembles_diagonal && kind == OperatorAssembleKind::Diagonal
    }
}

#[test]
fn composite_operator_supports_assemble_is_conjunction() {
    let ok = CompositeOperator::new(vec![
        Box::new(scale_op(2, 1.0)) as Box<dyn OperatorTrait<F64>>,
        Box::new(scale_op(2, 2.0)),
    ])
    .unwrap();
    assert!(ok.operator_supports_assemble(OperatorAssembleKind::Diagonal));
    assert!(!ok.operator_supports_assemble(OperatorAssembleKind::LinearSymbolic));
    assert!(!ok.operator_supports_assemble(OperatorAssembleKind::LinearCsrNumeric));
    assert!(!ok.operator_supports_assemble(OperatorAssembleKind::FdmElementInverse));

    let bad = CompositeOperator::new(vec![
        Box::new(scale_op(2, 1.0)) as Box<dyn OperatorTrait<F64>>,
        Box::new(no_assemble_kinds_op(2, 1.0)),
    ])
    .unwrap();
    assert!(!bad.operator_supports_assemble(OperatorAssembleKind::Diagonal));
}

#[test]
fn composite_operator_create_fdm_element_inverse_errors() {
    let c = CompositeOperator::new(vec![
        Box::new(scale_op(2, 1.0)) as Box<dyn OperatorTrait<F64>>
    ])
    .unwrap();
    let msg = match c.operator_create_fdm_element_inverse() {
        Err(e) => e.message().to_string(),
        Ok(_) => panic!("expected FDM inverse on composite to fail"),
    };
    assert!(
        msg.contains("CompositeOperator") && msg.contains("not supported"),
        "{msg}"
    );
}

#[test]
fn composite_operator_create_fdm_element_inverse_jacobi_errors() {
    let c = CompositeOperator::new(vec![
        Box::new(scale_op(2, 1.0)) as Box<dyn OperatorTrait<F64>>
    ])
    .unwrap();
    let msg = match c.operator_create_fdm_element_inverse_jacobi() {
        Err(e) => e.message().to_string(),
        Ok(_) => panic!("expected Jacobi FDM inverse on composite to fail"),
    };
    assert!(
        msg.contains("CompositeOperator")
            && msg.contains("operator_create_fdm_element_inverse_jacobi"),
        "{msg}"
    );
}

#[test]
fn composite_linear_assemble_add_errors() {
    let c = CompositeOperator::new(vec![
        Box::new(scale_op(2, 1.0)) as Box<dyn OperatorTrait<F64>>
    ])
    .unwrap();
    let msg = c.linear_assemble_add().unwrap_err().message().to_string();
    assert!(
        msg.contains("CompositeOperator") && msg.contains("linear_assemble_add"),
        "{msg}"
    );
}

#[test]
fn composite_linear_assemble_csr_matrix_add_errors() {
    let c = CompositeOperator::new(vec![
        Box::new(scale_op(2, 1.0)) as Box<dyn OperatorTrait<F64>>
    ])
    .unwrap();
    let pat = CsrPattern {
        nrows: 2,
        ncols: 2,
        row_ptr: vec![0, 1, 2],
        col_ind: vec![0, 1],
    };
    let mut m = CsrMatrix {
        pattern: pat,
        values: wrap(&[0.0, 0.0]),
    };
    let msg = c
        .linear_assemble_csr_matrix_add(&mut m)
        .unwrap_err()
        .message().to_string();
    assert!(
        msg.contains("CompositeOperator") && msg.contains("linear_assemble_csr_matrix_add"),
        "{msg}"
    );
}

#[test]
fn composite_linear_assemble_ceed_matrix_errors() {
    let c = CompositeOperator::new(vec![
        Box::new(scale_op(2, 1.0)) as Box<dyn OperatorTrait<F64>>
    ])
    .unwrap();
    let mut dense = CeedMatrix::<F64>::dense_col_major_symbolic(2, 2).unwrap();
    let msg = c
        .linear_assemble_ceed_matrix(&mut dense)
        .unwrap_err()
        .message().to_string();
    assert!(
        msg.contains("CompositeOperator") && msg.contains("linear_assemble_ceed_matrix"),
        "{msg}"
    );
}

#[test]
fn composite_borrowed_linear_assemble_add_errors() {
    let a = scale_op(2, 1.0);
    let b = scale_op(2, 2.0);
    let c = CompositeOperatorBorrowed::new(vec![
        &a as &dyn OperatorTrait<F64>,
        &b as &dyn OperatorTrait<F64>,
    ])
    .unwrap();
    let msg = c.linear_assemble_add().unwrap_err().message().to_string();
    assert!(
        msg.contains("CompositeOperatorBorrowed") && msg.contains("linear_assemble_add"),
        "{msg}"
    );
}

#[test]
fn composite_borrowed_linear_assemble_csr_matrix_add_errors() {
    let a = scale_op(2, 1.0);
    let b = scale_op(2, 2.0);
    let c = CompositeOperatorBorrowed::new(vec![
        &a as &dyn OperatorTrait<F64>,
        &b as &dyn OperatorTrait<F64>,
    ])
    .unwrap();
    let pat = CsrPattern {
        nrows: 2,
        ncols: 2,
        row_ptr: vec![0, 1, 2],
        col_ind: vec![0, 1],
    };
    let mut m = CsrMatrix {
        pattern: pat,
        values: wrap(&[0.0, 0.0]),
    };
    let msg = c
        .linear_assemble_csr_matrix_add(&mut m)
        .unwrap_err()
        .message().to_string();
    assert!(
        msg.contains("CompositeOperatorBorrowed")
            && msg.contains("linear_assemble_csr_matrix_add"),
        "{msg}"
    );
}

#[test]
fn composite_borrowed_linear_assemble_add_ceed_matrix_errors() {
    let a = scale_op(2, 1.0);
    let b = scale_op(2, 2.0);
    let c = CompositeOperatorBorrowed::new(vec![
        &a as &dyn OperatorTrait<F64>,
        &b as &dyn OperatorTrait<F64>,
    ])
    .unwrap();
    let mut dense = CeedMatrix::<F64>::dense_col_major_symbolic(2, 2).unwrap();
    let msg = c
        .linear_assemble_add_ceed_matrix(&mut dense)
        .unwrap_err()
        .message().to_string();
    assert!(
        msg.contains("CompositeOperatorBorrowed")
            && msg.contains("linear_assemble_add_ceed_matrix"),
        "{msg}"
    );
}

#[test]
fn composite_borrowed_create_fdm_element_inverse_jacobi_errors() {
    let a = scale_op(2, 1.0);
    let b = scale_op(2, 2.0);
    let c = CompositeOperatorBorrowed::new(vec![
        &a as &dyn OperatorTrait<F64>,
        &b as &dyn OperatorTrait<F64>,
    ])
    .unwrap();
    let msg = match c.operator_create_fdm_element_inverse_jacobi() {
        Err(e) => e.message().to_string(),
        Ok(_) => panic!("expected Jacobi FDM inverse on borrowed composite to fail"),
    };
    assert!(
        msg.contains("CompositeOperatorBorrowed")
            && msg.contains("operator_create_fdm_element_inverse_jacobi"),
        "{msg}"
    );
}

#[test]
fn composite_apply_transpose_adjoint_sums_suboperators() {
    let c = CompositeOperator::new(vec![
        Box::new(scale_op(2, 0.5)) as Box<dyn OperatorTrait<F64>>,
        Box::new(scale_op(2, 1.5)),
    ])
    .unwrap();
    let x = vector(&[1.0, -2.0]);
    let mut y = vector(&vec![0.0; 2]);
    c.apply_with_transpose(OperatorTransposeRequest::Adjoint, &x, &mut y)
        .unwrap();
    assert!((y.as_slice()[0].0 - 2.0).abs() < 1e-14);
    assert!((y.as_slice()[1].0 + 4.0).abs() < 1e-14);
}

#[test]
fn composite_new_rejects_empty() {
    assert!(matches!(
        CompositeOperator::<F64>::new(vec![]),
        Err(ReedError::Operator(_))
    ));
}

#[test]
fn composite_new_accepts_suboperator_named_buffers() {
    let comp = CompositeOperator::new(vec![
        Box::new(scale_op(3, 1.0)) as Box<dyn OperatorTrait<F64>>,
        Box::new(named_buffers_only_op(2.0)),
    ])
    .unwrap();
    assert!(comp.requires_field_named_buffers());

    let a = scale_op(3, 1.0);
    let b = named_buffers_only_op(2.0);
    let comp_b = CompositeOperatorBorrowed::new(vec![
        &a as &dyn OperatorTrait<F64>,
        &b as &dyn OperatorTrait<F64>,
    ])
    .unwrap();
    assert!(comp_b.requires_field_named_buffers());
}

#[test]
fn composite_named_field_buffers_forward_and_adjoint_sum_suboperators() {
    let comp = CompositeOperator::new(vec![
        Box::new(named_buffers_only_op(0.5)) as Box<dyn OperatorTrait<F64>>,
        Box::new(named_buffers_only_op(1.5)),
    ])
    .unwrap();

    let x = [1.0, -2.0, 3.0];
    let in_named = vec![named("x", &x)];
    let mut out_named = vec![named("x", &[0.0; 3])];

    comp.apply_field_buffers(&in_named, &mut out_named).unwrap();
    assert_eq!(out_named[0].vector.as_slice(), &wrap(&[2.0, -4.0, 6.0])[..]);

    let in_adj = vec![named("x", &x)];
    let mut out_adj = vec![named("x", &[0.0; 3])];
    comp.apply_field_buffers_with_transpose(
        OperatorTransposeRequest::Adjoint,
        &in_adj,
        &mut out_adj,
    )
    .unwrap();
    assert_eq!(out_adj[0].vector.as_slice(), &wrap(&[2.0, -4.0, 6.0])[..]);
}

#[test]
fn composite_new_rejects_mismatched_hints() {
    let a = mismatched_hint_op(3, 3, 1.0);
    let b = mismatched_hint_op(3, 4, 1.0);
    assert!(matches!(
        CompositeOperator::new(vec![
            Box::new(a) as Box<dyn OperatorTrait<F64>>,
            Box::new(b) as Box<dyn OperatorTrait<F64>>,
        ]),
        Err(ReedError::Operator(_))
    ));
}

#[test]
fn composite_check_ready_propagates_sub_error() {
    let comp = CompositeOperator::new(vec![
        Box::new(scale_op(3, 1.0)) as Box<dyn OperatorTrait<F64>>,
        Box::new(fail_check_op()),
    ])
    .unwrap();
    assert!(matches!(comp.check_ready(), Err(ReedError::Operator(_))));
}

#[test]
fn composite_apply_sums_suboperators() {
    let n = 3;
    let ops: Vec<Box<dyn OperatorTrait<F64>>> = vec![
        Box::new(scale_op(n, 2.0)),
        Box::new(scale_op(n, 3.0)),
    ];
    let comp = CompositeOperator::new(ops).unwrap();
    let x = vector(&[1.0, 2.0, 3.0]);
    let mut y = vector(&vec![0.0; n]);
    comp.apply(&x, &mut y).unwrap();
    assert_eq!(y.as_slice(), &wrap(&[5.0, 10.0, 15.0])[..]);
}

#[test]
fn composite_borrowed_apply_sums_suboperators() {
    let n = 2usize;
    let a = scale_op(n, 1.0);
    let b = scale_op(n, 2.0);
    let comp = CompositeOperatorBorrowed::new(vec![
        &a as &dyn OperatorTrait<F64>,
        &b as &dyn OperatorTrait<F64>,
    ])
    .unwrap();
    let x = vector(&[1.0, 1.0]);
    let mut y = vector(&vec![0.0; n]);
    comp.apply(&x, &mut y).unwrap();
    assert_eq!(y.as_slice(), &wrap(&[3.0, 3.0])[..]);
}

#[test]
fn composite_diagonal_sums_suboperators() {
    let n = 2;
    let ops: Vec<Box<dyn OperatorTrait<F64>>> = vec![
        Box::new(scale_op(n, 1.0)),
        Box::new(scale_op(n, 4.0)),
    ];
    let comp = CompositeOperator::new(ops).unwrap();
    let mut d = vector(&vec![0.0; n]);
    comp.linear_assemble_diagonal(&mut d).unwrap();
    assert_eq!(d.as_slice(), &wrap(&[5.0, 5.0])[..]);
}

#[test]
fn composite_linear_assemble_add_diagonal_accumulates() {
    let n = 2;
    let comp = CompositeOperator::new(vec![
        Box::new(scale_op(n, 2.0)) as Box<dyn OperatorTrait<F64>>,
        Box::new(scale_op(n, 3.0)),
    ])
    .unwrap();
    let mut v = vector(&[10.0, 20.0]);
    comp.linear_assemble_add_diagonal(&mut v).unwrap();
    assert!((v.as_slice()[0].0 - 15.0).abs() < 1e-14);
    assert!((v.as_slice()[1].0 - 25.0).abs() < 1e-14);
}

#[test]
fn composite_reports_its_parts_and_length() {
    let c = CompositeOperator::new(vec![
        Box::new(scale_op(2, 1.0)) as Box<dyn OperatorTrait<F64>>,
        Box::new(scale_op(2, 2.0)),
    ])
    .unwrap();
    assert_eq!(c.len(), 2);
    assert!(!c.is_empty());
    assert_eq!(c.global_vector_len_hint(), Some(2));
    assert!(c.check_ready().is_ok());
    assert!(!c.requires_field_named_buffers());
}

#[test]
fn composite_apply_overwrites_and_apply_add_accumulates() {
    let c = CompositeOperator::new(vec![
        Box::new(scale_op(2, 1.0)) as Box<dyn OperatorTrait<F64>>,
        Box::new(scale_op(2, 2.0)),
    ])
    .unwrap();
    let x = vector(&[1.0, -1.0]);
    let mut y = vector(&[7.0, 7.0]);
    c.apply(&x, &mut y).unwrap();
    assert_eq!(y.as_slice(), &wrap(&[3.0, -3.0])[..]);
    c.apply_add(&x, &mut y).unwrap();
    assert_eq!(y.as_slice(), &wrap(&[6.0, -6.0])[..]);
}

#[test]
fn composite_stops_at_the_first_failing_part() {
    let c = CompositeOperator::new(vec![
        Box::new(scale_op(3, 1.0)) as Box<dyn OperatorTrait<F64>>,
        Box::new(named_buffers_only_op(2.0)),
    ])
    .unwrap();
    let x = vector(&[1.0, 2.0, 3.0]);
    let mut y = vector(&[0.0, 0.0, 0.0]);
    assert!(matches!(c.apply_add(&x, &mut y), Err(ReedError::Operator(_))));
}

#[test]
fn composite_forward_and_adjoint_agree_as_adjoints() {
    let a = scale_op(2, 1.0);
    let b = scale_op(2, 0.5);
    let c = CompositeOperatorBorrowed::new(vec![
        &a as &dyn OperatorTrait<F64>,
        &b as &dyn OperatorTrait<F64>,
    ])
    .unwrap();
    let x = vector(&[1.0, -2.0]);
    let y = vector(&[3.0, 5.0]);
    let mut ax = vector(&[0.0, 0.0]);
    let mut aty = vector(&[0.0, 0.0]);
    c.apply_with_transpose(OperatorTransposeRequest::Forward, &x, &mut ax)
        .unwrap();
    c.apply_with_transpose(OperatorTransposeRequest::Adjoint, &y, &mut aty)
        .unwrap();
    let lhs: f64 = ax.as_slice().iter().zip(y.as_slice()).map(|(p, q)| p.0 * q.0).sum();
    let rhs: f64 = x.as_slice().iter().zip(aty.as_slice()).map(|(p, q)| p.0 * q.0).sum();
    assert_eq!(lhs, rhs);
}

#[test]
fn an_operator_without_an_adjoint_applies_forward() {
    let op = scale_op(2, 3.0);
    let x = vector(&[1.0, 2.0]);
    let mut y = vector(&[9.0, 9.0]);
    default_apply_with_transpose(&op, OperatorTransposeRequest::Forward, &x, &mut y).unwrap();
    assert_eq!(y.as_slice(), &wrap(&[3.0, 6.0])[..]);
    default_apply_add_with_transpose(&op, OperatorTransposeRequest::Forward, &x, &mut y).unwrap();
    assert_eq!(y.as_slice(), &wrap(&[6.0, 12.0])[..]);
    for r in [
        default_apply_with_transpose(&op, OperatorTransposeRequest::Adjoint, &x, &mut y),
        default_apply_add_with_transpose(&op, OperatorTransposeRequest::Adjoint, &x, &mut y),
    ] {
        assert!(matches!(r, Err(ReedError::Operator(_))));
    }
    assert_eq!(y.as_slice(), &wrap(&[6.0, 12.0])[..]);
}

/// A vector that cannot be set to a value or copied into.
struct Stubborn(Vec<F64>);

impl VectorTrait<F64> for Stubborn {
    fn len(&self) -> usize {
        self.0.len()
    }
    fn as_slice(&self) -> &[F64] {
        &self.0
    }
    fn as_mut_slice(&mut self) -> &mut [F64] {
        &mut self.0
    }
    fn set_value(&mut self, _v: F64) -> ReedResult<()> {
        Err(ReedError::InvalidArgument("no fill".to_string()))
    }
    fn copy_from_slice(&mut self, _data: &[F64]) -> ReedResult<()> {
        Err(ReedError::InvalidArgument("no copy".to_string()))
    }
}

fn stubborn(x: &[f64]) -> Vector {
    Box::new(Stubborn(wrap(x)))
}

#[test]
fn composite_hands_on_the_error_of_its_output() {
    let parts = || -> Vec<Box<dyn OperatorTrait<F64>>> {
        vec![Box::new(scale_op(2, 1.0)), Box::new(scale_op(2, 2.0))]
    };
    let owned = CompositeOperator::new(parts()).unwrap();
    let (a, b) = (scale_op(2, 1.0), scale_op(2, 2.0));
    let borrowed = CompositeOperatorBorrowed::new(vec![
        &a as &dyn OperatorTrait<F64>,
        &b as &dyn OperatorTrait<F64>,
    ])
    .unwrap();
    let x = vector(&[1.0, 2.0]);
    for c in [&owned as &dyn OperatorTrait<F64>, &borrowed] {
        let mut y = stubborn(&[7.0, 8.0]);
        for r in [
            c.apply(&x, &mut y),
            c.apply_with_transpose(OperatorTransposeRequest::Adjoint, &x, &mut y),
            c.linear_assemble_diagonal(&mut y),
        ] {
            assert_eq!(r.unwrap_err().message(), "no fill");
        }
        assert_eq!(y.as_slice(), &wrap(&[7.0, 8.0])[..]);
        // what adds does not fill
        c.apply_add(&x, &mut y).unwrap();
        assert_eq!(y.as_slice(), &wrap(&[10.0, 14.0])[..]);
        c.linear_assemble_add_diagonal(&mut y).unwrap();
        assert_eq!(y.as_slice(), &wrap(&[13.0, 17.0])[..]);
    }
}

#[test]
fn composite_stops_at_the_first_output_that_cannot_be_cleared() {
    let c = CompositeOperator::new(vec![
        Box::new(named_buffers_only_op(1.0)) as Box<dyn OperatorTrait<F64>>
    ])
    .unwrap();
    let inputs = vec![named("x", &[1.0])];
    let mut outputs = vec![named("a", &[5.0]), named("b", &[6.0]), named("x", &[7.0])];
    outputs[1].vector = stubborn(&[6.0]);
    let r = c.apply_field_buffers(&inputs, &mut outputs);
    assert_eq!(r.unwrap_err().message(), "no fill");
    let left: Vec<f64> = outputs.iter().map(|b| b.vector.as_slice()[0].0).collect();
    assert_eq!(left, [0.0, 6.0, 7.0]);
}

#[test]
fn jacobi_diagonal_hands_on_the_error_of_its_output() {
    let op = CpuFdmJacobiInverseOperator::new(wrap(&[2.0, 4.0]));
    let mut d = stubborn(&[1.0, 1.0]);
    assert_eq!(op.linear_assemble_diagonal(&mut d).unwrap_err().message(), "no copy");
    assert_eq!(d.as_slice(), &wrap(&[1.0, 1.0])[..]);
}
