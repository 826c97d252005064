//! Quadrature on element faces, taken from volume bases.

use vstd::prelude::*;

use crate::basis::BasisTrait;
use crate::cpu::basis_lagrange::LagrangeBasis;
#[allow(unused_imports)]
use crate::cpu::basis_lagrange::{lemma_mixed, power, LagrangeView};
use crate::cpu::basis_simplex::SimplexBasis;
#[allow(unused_imports)]
use crate::cpu::convert::stored;
use crate::cpu::face_rules::simplex_face_rule;
#[allow(unused_imports)]
use crate::cpu::face_rules::{face_points, face_refusal, face_weights, simplex_order};
use crate::error::{ErrorKind, ReedError, ReedResult};
#[allow(unused_imports)]
use crate::error::refused;
#[allow(unused_imports)]
use crate::index::{lemma_flat, lemma_mul_le, lemma_split};
#[allow(unused_imports)]
use crate::scalar::{Real, Scalar};
use crate::text::Message;
#[allow(unused_imports)]
use crate::text::decimal;

verus! {

/// One-dimensional points of a tensor-product basis.
pub open spec fn axis_points<T: Real>(view: LagrangeView<T>) -> Seq<T> {
    Seq::new(view.q as nat, |i: int| view.q_ref[i * view.dim])
}

/// Face points of a tensor-product basis: a segment has the one-dimensional points, a
/// quadrilateral their pairs with the first coordinate running fastest.
pub open spec fn tensor_face_points<T: Real>(view: LagrangeView<T>) -> Seq<T> {
    let x = axis_points(view);
    let q = view.q as int;
    if view.dim == 2 {
        x
    } else {
        Seq::new(
            (q * q * 2) as nat,
            |k: int|
                if k % 2 == 0 {
                    x[k / 2 % q]
                } else {
                    x[k / 2 / q]
                },
        )
    }
}

/// Face weights of a tensor-product basis.
pub open spec fn tensor_face_weights<T: Real>(view: LagrangeView<T>) -> Seq<T> {
    let w = view.weights_1d;
    let q = view.q as int;
    if view.dim == 2 {
        w
    } else {
        Seq::new((q * q) as nat, |k: int| w[k % q].times(w[k / q]))
    }
}

/// Why a face has no rule, if it has none.
pub open spec fn tensor_face_refusal(dim: int, local_face: int) -> Option<Seq<char>> {
    if dim != 2 && dim != 3 {
        Some("face_quadrature_tensor requires dim=2 or 3, got "@ + decimal(dim as nat))
    } else if dim == 2 && local_face > 3 {
        Some("invalid local_face "@ + decimal(local_face as nat) + " for Quad (valid: 0..=3)"@)
    } else if dim == 3 && local_face > 5 {
        Some("invalid local_face "@ + decimal(local_face as nat) + " for Hex (valid: 0..=5)"@)
    } else {
        None
    }
}

/// Face quadrature of a tensor-product basis: face-local points and weights.
///
/// Faces of a quadrilateral are numbered bottom, right, top, left; a hexahedron also has front
/// and back.
pub fn face_quadrature_tensor<T: Real>(basis: &LagrangeBasis<T>, local_face: usize) -> (r:
    ReedResult<(Vec<T>, Vec<T>)>)
    requires
        basis.wf(),
    ensures
        match tensor_face_refusal(basis@.dim as int, local_face as int) {
            Some(m) => refused(r, ErrorKind::Basis, m),
            None => r matches Ok(t) && t.0@ == tensor_face_points(basis@) && t.1@
                == tensor_face_weights(basis@),
        },
{
    let dim: usize = basis.dim();
    if dim != 2 && dim != 3 {
        return Err(
            ReedError::Basis(
                Message::new("face_quadrature_tensor requires dim=2 or 3, got ").num(dim).done(),
            ),
        );
    }
    if dim == 2 && local_face > 3 {
        return Err(
            ReedError::Basis(
                Message::new("invalid local_face ").num(local_face).text(
                    " for Quad (valid: 0..=3)",
                ).done(),
            ),
        );
    }
    if dim == 3 && local_face > 5 {
        return Err(
            ReedError::Basis(
                Message::new("invalid local_face ").num(local_face).text(
                    " for Hex (valid: 0..=5)",
                ).done(),
            ),
        );
    }
    let (w, q): (&[T], usize) = match basis.tensor_fdm_1d_data() {
        Some((_, _, w, _, q)) => (w, q),
        None => {
            return Err(
                ReedError::Basis(
                    Message::new("LagrangeBasis must provide tensor_fdm_1d_data").done(),
                ),
            );
        },
    };
    let full = basis.q_ref();
    let ghost view = basis@;
    let mut x: Vec<T> = Vec::new();
    assert(full@.len() == full.len());
    proof {
        lemma_mixed(view.p as int, q as int, dim as int, usize::MAX as int);
        lemma_mul_le(q as int, power(q as int, dim as int), dim as int, dim as int);
        if dim == 3 {
            lemma_mul_le(q as int, q as int, 1, q as int);
            lemma_mul_le(q * q, q * q, 1, q as int);
            lemma_mul_le(q * q, q * q * q, 2, 3);
        }
    }
    for i in 0..q
        invariant
            view == basis@,
            dim == view.dim,
            q == view.q,
            full@ == view.q_ref,
            q * dim <= full@.len() <= usize::MAX,
            dim >= 1,
            x@.len() == i,
            forall|k: int| 0 <= k < i ==> #[trigger] x@[k] == axis_points(view)[k],
    {
        proof {
            lemma_flat(i as int, q as int, 0, dim as int);
        }
        x.push(full[i * dim]);
    }
    assert(x@ =~= axis_points(view));
    if dim == 2 {
        let mut weights: Vec<T> = Vec::new();
        for i in 0..q
            invariant
                w@.len() == q,
                weights@.len() == i,
                forall|k: int| 0 <= k < i ==> #[trigger] weights@[k] == w@[k],
        {
            weights.push(w[i]);
        }
        assert(weights@ =~= w@);
        return Ok((x, weights));
    }
    let mut points: Vec<T> = Vec::new();
    let mut weights: Vec<T> = Vec::new();
    let count: usize = q * q;
    for k in 0..count
        invariant
            view == basis@,
            view.dim == 3,
            q == view.q,
            count == q * q,
            x@ == axis_points(view),
            w@ == view.weights_1d,
            w@.len() == q,
            points@.len() == 2 * k,
            weights@.len() == k,
            forall|i: int| 0 <= i < 2 * k ==> #[trigger] points@[i] == tensor_face_points(view)[i],
            forall|i: int| 0 <= i < k ==> #[trigger] weights@[i] == tensor_face_weights(view)[i],
    {
        proof {
            lemma_split(k as int, q as int, q as int);
        }
        points.push(x[k % q]);
        points.push(x[k / q]);
        weights.push(w[k % q].mul(w[k / q]));
    }
    assert(points@ =~= tensor_face_points(view));
    assert(weights@ =~= tensor_face_weights(view));
    Ok((points, weights))
}

/// Face quadrature of a simplex basis: face-local points and weights. Face `i` is opposite
/// vertex `i`.
pub fn face_quadrature_simplex<T: Scalar>(basis: &SimplexBasis<T>, local_face: usize) -> (r:
    ReedResult<(Vec<T>, Vec<T>)>)
    requires
        basis.wf(),
    ensures
        match face_refusal::<T>(
            basis@.shape.dim as int,
            basis@.shape.num_dof as int,
            local_face as int,
        ) {
            Some(m) => refused(r, ErrorKind::Basis, m),
            None => {
                let dim = basis@.shape.dim as int;
                let poly = simplex_order(dim, basis@.shape.num_dof as int);
                r matches Ok(t) && t.0@ == stored::<T>(face_points(dim, poly)) && t.1@ == stored::<
                    T,
                >(face_weights(dim, poly))
            },
        },
{
    simplex_face_rule(basis.dim(), basis.num_dof(), local_face)
}

} // verus!
