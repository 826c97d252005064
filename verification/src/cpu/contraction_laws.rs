//! Laws of the contractions with one-dimensional matrices and of the dense and diagonal inverses.

use vstd::prelude::*;

#[allow(unused_imports)]
use crate::cpu::fdm_inverse::{
    matrix_terms, CpuFdmDenseInverseOperator, CpuFdmJacobiInverseOperator,
};
#[allow(unused_imports)]
use crate::cpu::fdm_tensor::unit_vector;
#[allow(unused_imports)]
use crate::cpu::tensor::{contracted, strided_terms};
use crate::operator::OperatorTrait;
#[allow(unused_imports)]
use crate::operator::OperatorTransposeRequest;
use crate::scalar::Real;
#[allow(unused_imports)]
use crate::scalar::{
    col_sums, exact_ring, lemma_sum_ext, lemma_sum_scale, lemma_sum_single, lemma_sum_swap,
    lemma_times_assoc, lemma_times_comm, lemma_times_one, lemma_times_zero, row_sums, sum,
};

verus! {

// ── contractions ────────────────────────────────────────────────────────────

/// The matrix of a contraction is row-major with `q` rows and `p` columns: the contraction of a
/// vector is, output by output, the sum of the entries of a row times the numbers of the vector,
/// and of a column for the transpose.
pub proof fn law_contraction_is_row_major<T: Real>(
    b: Seq<T>,
    q: int,
    p: int,
    u: Seq<T>,
    stride: int,
    j: int,
)
    ensures
        contracted(b, q, p, false, u, stride, j) == sum(
            p,
            |i: int| b[j * p + i].times(u[i * stride]),
        ),
        contracted(b, q, p, true, u, stride, j) == sum(
            q,
            |i: int| b[i * p + j].times(u[i * stride]),
        ),
{
    lemma_sum_ext(
        p,
        strided_terms(b, p, false, u, stride, j),
        |i: int| b[j * p + i].times(u[i * stride]),
    );
    lemma_sum_ext(
        q,
        strided_terms(b, p, true, u, stride, j),
        |i: int| b[i * p + j].times(u[i * stride]),
    );
}

/// A contraction and its transpose are adjoint.
pub proof fn law_contraction_adjoint<T: Real>(
    b: Seq<T>,
    q: int,
    p: int,
    u: Seq<T>,
    us: int,
    w: Seq<T>,
    ws: int,
)
    requires
        exact_ring::<T>(),
    ensures
        sum(q, |j: int| contracted(b, q, p, false, u, us, j).times(w[j * ws])) == sum(
            p,
            |i: int| u[i * us].times(contracted(b, q, p, true, w, ws, i)),
        ),
{
    let f = |j: int, i: int| b[j * p + i].times(u[i * us]).times(w[j * ws]);
    lemma_sum_swap(q, p, f);
    let x = |j: int| contracted(b, q, p, false, u, us, j).times(w[j * ws]);
    assert forall|j: int| 0 <= j < q implies #[trigger] x(j) == row_sums(p, f)(j) by {
        let (g, h) = (strided_terms(b, p, false, u, us, j), |i: int| f(j, i));
        assert forall|i: int| 0 <= i < p implies #[trigger] h(i) == w[j * ws].times(g(i)) by {
            lemma_times_comm(g(i), w[j * ws]);
        }
        lemma_sum_scale(p, w[j * ws], g, h);
        lemma_times_comm(sum(p, g), w[j * ws]);
    }
    lemma_sum_ext(q, x, row_sums(p, f));
    let y = |i: int| u[i * us].times(contracted(b, q, p, true, w, ws, i));
    assert forall|i: int| 0 <= i < p implies #[trigger] y(i) == col_sums(q, f)(i) by {
        let (g, h) = (strided_terms(b, p, true, w, ws, i), |j: int| f(j, i));
        assert forall|j: int| 0 <= j < q implies #[trigger] h(j) == u[i * us].times(g(j)) by {
            lemma_times_comm(b[j * p + i], u[i * us]);
            lemma_times_assoc(u[i * us], b[j * p + i], w[j * ws]);
        }
        lemma_sum_scale(q, u[i * us], g, h);
    }
    lemma_sum_ext(p, y, col_sums(q, f));
}

// ── inverses ────────────────────────────────────────────────────────────────

/// The operator of a diagonal undoes the diagonal of the reciprocals.
pub proof fn law_jacobi_inverse_undoes<T: Real>(
    op: CpuFdmJacobiInverseOperator<T>,
    d: Seq<T>,
    x: Seq<T>,
    y: Seq<T>,
)
    requires
        exact_ring::<T>(),
        d.len() == op.entries().len(),
        x.len() == d.len(),
        y.len() == d.len(),
        forall|i: int|
            0 <= i < d.len() ==> #[trigger] op.entries()[i].times(d[i]) == T::one_val(),
    ensures
        op.product(
            OperatorTransposeRequest::Forward,
            false,
            Seq::new(d.len(), |i: int| d[i].times(x[i])),
            y,
        ).error is None,
        op.product(
            OperatorTransposeRequest::Forward,
            false,
            Seq::new(d.len(), |i: int| d[i].times(x[i])),
            y,
        ).values == x,
{
    let dx = Seq::new(d.len(), |i: int| d[i].times(x[i]));
    let z = op.product(OperatorTransposeRequest::Forward, false, dx, y).values;
    assert forall|i: int| 0 <= i < d.len() implies #[trigger] z[i] == x[i] by {
        lemma_times_assoc(op.entries()[i], d[i], x[i]);
        lemma_times_one(x[i]);
    }
    assert(z =~= x);
}

/// Entry `i` of the assembled diagonal of a dense operator is entry `i` of what it makes of the unit
/// vector `i`.
pub proof fn law_dense_diagonal<T: Real>(
    op: CpuFdmDenseInverseOperator<T>,
    y: Seq<T>,
    z: Seq<T>,
    i: int,
)
    requires
        exact_ring::<T>(),
        op.wf(),
        y.len() == op.size(),
        z.len() == op.size(),
        0 <= i < op.size(),
    ensures
        op.diagonal_result(false, y).error is None,
        op.diagonal_result(false, y).values[i] == op.product(
            OperatorTransposeRequest::Forward,
            false,
            unit_vector(op.size() as nat, i),
            z,
        ).values[i],
{
    let (m, n) = (op.entries(), op.size() as int);
    let x = unit_vector::<T>(n as nat, i);
    let f = matrix_terms(m, n, OperatorTransposeRequest::Forward, x, i);
    assert forall|k: int| 0 <= k < n && k != i implies #[trigger] f(k) == T::zero_val() by {
        lemma_times_zero(m[i + k * n]);
    }
    lemma_sum_single(n, i, f);
    lemma_times_one(m[i + i * n]);
}

} // verus!
