//! Sparse matrices, matrix handles and contexts.

use reed::csr::{
    csr_sparsity_from_offset_lnodes, csr_sparsity_from_offset_restriction, CsrMatrix, CsrPattern,
};
use reed::error::ReedError;
use reed::matrix::{CeedMatrix, CeedMatrixStorage};
use reed::qfunction_context::{
    QFunctionContext, QFunctionContextField, QFunctionContextFieldKind,
};
use reed::scalar::Real;

/// Double-precision numbers.
#[derive(Clone, Copy, Debug, PartialEq, PartialOrd)]
struct F64(f64);

impl Real for F64 {
    fn zero() -> Self {
        F64(0.0)
    }
    fn one() -> Self {
        F64(1.0)
    }
    fn from_int(n: i64) -> Self {
        F64(n as f64)
    }
    fn pi() -> Self {
        F64(std::f64::consts::PI)
    }
    fn epsilon() -> Self {
        F64(f64::EPSILON)
    }
    fn add(self, rhs: Self) -> Self {
        F64(self.0 + rhs.0)
    }
    fn sub(self, rhs: Self) -> Self {
        F64(self.0 - rhs.0)
    }
    fn mul(self, rhs: Self) -> Self {
        F64(self.0 * rhs.0)
    }
    fn div(self, rhs: Self) -> Self {
        F64(self.0 / rhs.0)
    }
    fn neg(self) -> Self {
        F64(-self.0)
    }
    fn abs(self) -> Self {
        F64(self.0.abs())
    }
    fn sqrt(self) -> Self {
        F64(self.0.sqrt())
    }
    fn cos(self) -> Self {
        F64(self.0.cos())
    }
    fn lt(self, rhs: Self) -> bool {
        self.0 < rhs.0
    }
    fn le(self, rhs: Self) -> bool {
        self.0 <= rhs.0
    }
    fn eq_value(self, rhs: Self) -> bool {
        self.0 == rhs.0
    }
    fn to_text(self) -> String {
        format!("{}", self.0)
    }
}

fn wrap(v: &[f64]) -> Vec<F64> {
    v.iter().map(|&x| F64(x)).collect()
}

#[test]
fn csr_sparsity_line_two_elements_seven_nonzeros() {
    let p = csr_sparsity_from_offset_lnodes(2, 2, 3, &[0, 1, 1, 2]).unwrap();
    assert_eq!(p.nnz(), 7);
    assert_eq!(p.index_of(0, 2), None);
    assert!(p.index_of(1, 2).is_some());
}

#[test]
fn csr_sparsity_ncomp2_matches_element_closure() {
    let p = csr_sparsity_from_offset_restriction(1, 2, 2, 3, 10, &[0, 1]).unwrap();
    assert_eq!(p.nrows, 10);
    assert_eq!(p.nnz(), 4 * 4);
    assert!(p.index_of(0, 3).is_some());
    assert!(p.index_of(3, 0).is_some());
}

#[test]
fn csr_matvec_diagonal_2x2() {
    let pat = CsrPattern {
        nrows: 2,
        ncols: 2,
        row_ptr: vec![0, 1, 2],
        col_ind: vec![0, 1],
    };
    let m = CsrMatrix {
        pattern: pat,
        values: wrap(&[2.0, 3.0]),
    };
    let x = wrap(&[1.0, 4.0]);
    let mut y = wrap(&[0.0; 2]);
    m.mul_vec(&x, &mut y).unwrap();
    assert!((y[0].0 - 2.0).abs() < 1e-14);
    assert!((y[1].0 - 12.0).abs() < 1e-14);
}

#[test]
fn dense_matrix_handle_accumulates() {
    let mut m = CeedMatrix::<F64>::dense_col_major_symbolic(2, 2).unwrap();
    m.add_dense_col_major(2, 2, &wrap(&[1.0, 2.0, 3.0, 4.0])).unwrap();
    m.add_dense_col_major(2, 2, &wrap(&[0.5, 1.0, 1.5, 2.0])).unwrap();
    match m.storage() {
        CeedMatrixStorage::DenseColMajor { values, .. } => {
            assert_eq!(values, &wrap(&[1.5, 3.0, 4.5, 6.0]));
        }
        _ => panic!("expected dense matrix"),
    }
    assert!(m.numeric_done());
}

#[test]
fn field_layout_rejects_overlap() {
    let err = QFunctionContext::from_field_layout(vec![
        QFunctionContextField {
            name: "a".into(),
            offset: 0,
            kind: QFunctionContextFieldKind::F64,
        },
        QFunctionContextField {
            name: "b".into(),
            offset: 4,
            kind: QFunctionContextFieldKind::F64,
        },
    ])
    .unwrap_err();
    assert!(matches!(err, ReedError::QFunction(_)));
}

#[test]
fn from_bytes_marks_dirty() {
    let c = QFunctionContext::from_bytes(vec![1, 2, 3]);
    assert!(c.host_needs_device_upload());
}

#[test]
fn a_product_is_added_to_what_was_there() {
    // the middle row is empty
    let m = CsrMatrix {
        pattern: CsrPattern {
            nrows: 3,
            ncols: 2,
            row_ptr: vec![0, 2, 2, 3],
            col_ind: vec![0, 1, 1],
        },
        values: wrap(&[1.0, 2.0, 3.0]),
    };
    let x = wrap(&[4.0, 5.0]);
    let mut y = wrap(&[7.0; 3]);
    m.mul_vec(&x, &mut y).unwrap();
    assert_eq!(y, wrap(&[14.0, 0.0, 15.0]));
    let mut z = wrap(&[1.0, 2.0, 3.0]);
    m.mul_vec_add(&x, &mut z).unwrap();
    assert_eq!(z, wrap(&[15.0, 2.0, 18.0]));
    assert_eq!(m.clone(), m);
}
