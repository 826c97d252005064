//! What applying the tensor-product inverse to global vectors undoes, and where its diagonal comes
//! from.

use vstd::prelude::*;

#[allow(unused_imports)]
use crate::cpu::batch::law_batch_is_elementwise;
#[allow(unused_imports)]
use crate::cpu::composite_operator::zero_values;
#[allow(unused_imports)]
use crate::cpu::eigen::{diagonalized, gram, unrotated};
#[allow(unused_imports)]
use crate::cpu::eigen_laws::{cleared, exact_solver};
#[allow(unused_imports)]
use crate::cpu::fdm_laws::{cells, eigenvalues_of, matrix_product, tensor_power, vectors_of};
#[allow(unused_imports)]
use crate::cpu::fdm_operator_laws::{
    axis_sum, diagonalises, integrals, law_tensor_inverse_undoes_mass,
    law_tensor_inverse_undoes_stiffness,
};
#[allow(unused_imports)]
use crate::cpu::fdm_tensor::{
    eigen_data, unit_vector, CpuFdmTensorInverseOperator, FdmOperatorKind, MAX_SWEEPS,
};
use crate::elem_restriction::ElemRestrictionTrait;
#[allow(unused_imports)]
use crate::enums::TransposeMode;
#[allow(unused_imports)]
use crate::index::lemma_split;
use crate::operator::{OperatorTrait, OperatorTransposeRequest, Sink};
use crate::scalar::Real;
#[allow(unused_imports)]
use crate::vector::{Outcome, WriteTarget};

verus! {

/// The `n` numbers of element `e`.
pub open spec fn element<T>(u: Seq<T>, e: int, n: int) -> Seq<T> {
    Seq::new(n as nat, |j: int| u[e * n + j])
}

/// The element-local numbers `z` are the matrix `a` times `u`, element by element.
pub open spec fn elementwise_product<T: Real>(
    a: spec_fn(int, int) -> T,
    n: int,
    num_elem: int,
    u: Seq<T>,
    z: Seq<T>,
) -> bool {
    &&& u.len() == num_elem * n
    &&& z.len() == num_elem * n
    &&& forall|e: int|
        0 <= e < num_elem ==> #[trigger] element(z, e, n) == matrix_product(a, n, element(u, e, n))
}

/// The operator can be applied: all lengths are right and the restriction accepts them.
pub open spec fn applicable<T: Real, R: ElemRestrictionTrait<T> + ?Sized>(
    op: CpuFdmTensorInverseOperator<T, R>,
    x: Seq<T>,
    y: Seq<T>,
) -> bool {
    let g = op.gathers();
    &&& op.wf()
    &&& op.content().has_dim()
    &&& x.len() == op.size()
    &&& y.len() == op.size()
    &&& op.elem_len() == cells(op.content().p as int, op.content().dim as int)
    &&& g.refusal(TransposeMode::NoTranspose, x.len(), op.local_len() as nat) is None
    &&& g.refusal(TransposeMode::Transpose, op.local_len() as nat, y.len()) is None
}

proof fn lemma_local_images<T: Real, R: ElemRestrictionTrait<T> + ?Sized>(
    op: CpuFdmTensorInverseOperator<T, R>,
    x: Seq<T>,
    u: Seq<T>,
    z: Seq<T>,
)
    requires
        op.wf(),
        u.len() == op.local_len(),
        z.len() == op.local_len(),
        z == op.gathers().applied(
            TransposeMode::NoTranspose,
            x,
            zero_values(op.local_len() as nat),
        ),
        forall|e: int|
            0 <= e < op.gathers().elements() ==> op.content().tables().image(
                op.content().dim as int,
                op.elem_len(),
            )(#[trigger] element(z, e, op.elem_len())) == element(u, e, op.elem_len()),
    ensures
        op.local_images(x) == u,
{
    let (ne, n) = (op.gathers().elements(), op.elem_len());
    let f = op.content().tables().image(op.content().dim as int, n);
    assert(0 <= n) by (nonlinear_arith)
        requires
            n == op.gathers().nodes_per_elem() * op.gathers().comps(),
            0 <= op.gathers().nodes_per_elem(),
            0 <= op.gathers().comps(),
    ;
    let out = op.local_images(x);
    assert(0 <= ne * n) by (nonlinear_arith)
        requires
            0 <= ne,
            0 <= n,
    ;
    assert forall|k: int| 0 <= k < ne * n implies #[trigger] out[k] == u[k] by {
        lemma_split(k, ne, n);
        let (e, j) = (k / n, k % n);
        law_batch_is_elementwise(f, ne, n, n, z, e, j);
        assert(f(element(z, e, n)) == element(u, e, n));
        assert(element(u, e, n)[j] == u[e * n + j]);
    }
    assert(out =~= u);
}

/// Where a global vector restricts to the mass operator times `u`, element by element, the inverse
/// of kind mass puts `u` together: it leaves the transposed restriction of `u`, added to zeros or
/// to what the output held. The direction makes no difference.
pub proof fn law_tensor_operator_undoes_mass<T: Real, R: ElemRestrictionTrait<T> + ?Sized>(
    op: CpuFdmTensorInverseOperator<T, R>,
    interp: Seq<T>,
    grad: Seq<T>,
    weights: Seq<T>,
    q: int,
    request: OperatorTransposeRequest,
    x: Seq<T>,
    y: Seq<T>,
    v: WriteTarget<T>,
    u: Seq<T>,
)
    requires
        exact_solver::<T>(),
        applicable(op, x, y),
        v.values.len() == op.size(),
        op.content().op_kind == FdmOperatorKind::Mass,
        op.content().eigen == eigen_data(interp, grad, weights, op.content().p as int, q),
        op.content().p * op.content().p <= usize::MAX,
        cleared(
            diagonalized(
                unrotated(
                    gram(interp, weights, op.content().p as int, q),
                    op.content().p as int,
                ),
                op.content().p as int,
                MAX_SWEEPS as int,
            ),
            op.content().p as int,
        ),
        forall|k: int|
            0 <= k < op.content().p ==> #[trigger] op.content().tables().lambda[k]
                != T::zero_val(),
        elementwise_product(
            tensor_power(
                integrals(interp, weights, op.content().p as int, q),
                op.content().p as int,
                op.content().dim as int,
            ),
            op.elem_len(),
            op.gathers().elements(),
            u,
            op.gathers().applied(
                TransposeMode::NoTranspose,
                x,
                zero_values(op.local_len() as nat),
            ),
        ),
    ensures
        op.outcome(request, x, Sink::Overwrite(v)) == Outcome::done(
            op.gathers().applied(TransposeMode::Transpose, u, zero_values(op.size() as nat)),
        ),
        op.outcome(request, x, Sink::Accumulate(y)) == Outcome::done(
            op.gathers().applied(TransposeMode::Transpose, u, y),
        ),
{
    let view = op.content();
    let n = op.elem_len();
    let z = op.gathers().applied(
        TransposeMode::NoTranspose,
        x,
        zero_values(op.local_len() as nat),
    );
    assert forall|e: int| 0 <= e < op.gathers().elements() implies view.tables().image(
        view.dim as int,
        n,
    )(#[trigger] element(z, e, n)) == element(u, e, n) by {
        law_tensor_inverse_undoes_mass(view, interp, grad, weights, q, element(u, e, n));
    }
    lemma_local_images(op, x, u, z);
}

/// Where a global vector restricts to the stiffness operator times `u`, element by element, the
/// inverse of kind stiffness puts `u` together, on the terms of the inverse on an element: the
/// eigenvectors of the mass matrix diagonalise the stiffness matrix too and no divisor is zero.
pub proof fn law_tensor_operator_undoes_stiffness<T: Real, R: ElemRestrictionTrait<T> + ?Sized>(
    op: CpuFdmTensorInverseOperator<T, R>,
    interp: Seq<T>,
    grad: Seq<T>,
    weights: Seq<T>,
    q: int,
    request: OperatorTransposeRequest,
    x: Seq<T>,
    y: Seq<T>,
    v: WriteTarget<T>,
    u: Seq<T>,
)
    requires
        exact_solver::<T>(),
        applicable(op, x, y),
        v.values.len() == op.size(),
        op.content().op_kind == FdmOperatorKind::Stiffness,
        op.content().eigen == eigen_data(interp, grad, weights, op.content().p as int, q),
        op.content().p * op.content().p <= usize::MAX,
        diagonalises(
            vectors_of(op.content().tables()),
            integrals(grad, weights, op.content().p as int, q),
            op.content().p as int,
        ),
        forall|t: int|
            0 <= t < op.elem_len() ==> #[trigger] eigenvalues_of(
                op.content().tables(),
                op.content().dim as int,
            )(t) != T::zero_val(),
        elementwise_product(
            axis_sum(
                integrals(grad, weights, op.content().p as int, q),
                op.content().p as int,
                op.content().dim as int,
            ),
            op.elem_len(),
            op.gathers().elements(),
            u,
            op.gathers().applied(
                TransposeMode::NoTranspose,
                x,
                zero_values(op.local_len() as nat),
            ),
        ),
    ensures
        op.outcome(request, x, Sink::Overwrite(v)) == Outcome::done(
            op.gathers().applied(TransposeMode::Transpose, u, zero_values(op.size() as nat)),
        ),
        op.outcome(request, x, Sink::Accumulate(y)) == Outcome::done(
            op.gathers().applied(TransposeMode::Transpose, u, y),
        ),
{
    let view = op.content();
    let n = op.elem_len();
    let z = op.gathers().applied(
        TransposeMode::NoTranspose,
        x,
        zero_values(op.local_len() as nat),
    );
    assert forall|e: int| 0 <= e < op.gathers().elements() implies view.tables().image(
        view.dim as int,
        n,
    )(#[trigger] element(z, e, n)) == element(u, e, n) by {
        law_tensor_inverse_undoes_stiffness(view, interp, grad, weights, q, element(u, e, n));
    }
    lemma_local_images(op, x, u, z);
}

/// Entry `j` of the diagonal is what the operator leaves at `j` of the vector with a one at `j`
/// and zeros elsewhere; it replaces what the output held there or is added to it.
pub proof fn law_tensor_diagonal_is_read_off<T: Real, R: ElemRestrictionTrait<T> + ?Sized>(
    op: CpuFdmTensorInverseOperator<T, R>,
    unit: Seq<T>,
    y: Seq<T>,
    v: WriteTarget<T>,
    w: WriteTarget<T>,
    j: int,
)
    requires
        applicable(op, unit, y),
        v.values.len() == op.size(),
        w.values.len() == op.size(),
        0 <= j < op.size(),
        forall|i: int|
            0 <= i < unit.len() ==> #[trigger] unit[i] == if i == j {
                T::one_val()
            } else {
                T::zero_val()
            },
    ensures
        ({
            let image = op.outcome(OperatorTransposeRequest::Forward, unit, Sink::Overwrite(w));
            &&& op.diagonal_outcome(Sink::Overwrite(v)).error is None
            &&& op.diagonal_outcome(Sink::Overwrite(v)).values[j] == image.values[j]
            &&& op.diagonal_outcome(Sink::Accumulate(y)).error is None
            &&& op.diagonal_outcome(Sink::Accumulate(y)).values[j] == y[j].plus(image.values[j])
        }),
{
    assert(unit =~= unit_vector(op.size() as nat, j));
}

} // verus!
