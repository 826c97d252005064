//! Quadrature on the faces of simplices.

use vstd::prelude::*;

use crate::cpu::convert::unstorable_error;
#[allow(unused_imports)]
use crate::cpu::convert::{stored, unstorable, unstorable_from, unstorable_message};
use crate::cpu::simplex_shapes::{line_quadrature, tri_quadrature};
#[allow(unused_imports)]
use crate::cpu::simplex_shapes::{
    line_rule_points, line_rule_weights, tri_rule_points, tri_rule_weights,
};
use crate::error::{ErrorKind, ReedError, ReedResult};
#[allow(unused_imports)]
use crate::error::refused;
#[allow(unused_imports)]
use crate::index::lemma_flat;
#[allow(unused_imports)]
use crate::scalar::{Real, Scalar};
use crate::text::Message;
#[allow(unused_imports)]
use crate::text::decimal;

verus! {

/// Polynomial order of a simplex basis by dimension and number of nodes; zero for no basis.
pub open spec fn simplex_order(dim: int, num_dof: int) -> int {
    if (dim == 2 && num_dof == 3) || (dim == 3 && num_dof == 4) {
        1
    } else if (dim == 2 && num_dof == 6) || (dim == 3 && num_dof == 10) {
        2
    } else if (dim == 2 && num_dof == 10) || (dim == 3 && num_dof == 20) {
        3
    } else {
        0
    }
}

/// Points of the triangle rule used on the faces of a tetrahedron.
pub open spec fn tet_face_count(poly: int) -> int {
    if poly == 1 {
        1
    } else if poly == 2 {
        3
    } else {
        4
    }
}

/// Coordinates of the face points in the working type, one or two per point.
pub open spec fn face_points<R: Real>(dim: int, poly: int) -> Seq<R> {
    if dim == 2 {
        line_rule_points(poly + 1)
    } else {
        tri_rule_points(tet_face_count(poly))
    }
}

/// Face weights in the working type.
pub open spec fn face_weights<R: Real>(dim: int, poly: int) -> Seq<R> {
    if dim == 2 {
        line_rule_weights(poly + 1)
    } else {
        tri_rule_weights(tet_face_count(poly))
    }
}

/// Coordinates and weight of each point, point after point; each point has `n` coordinates.
pub open spec fn interleaved<R>(points: Seq<R>, weights: Seq<R>, n: int) -> Seq<R> {
    Seq::new(
        (weights.len() * (n + 1)) as nat,
        |k: int|
            if k % (n + 1) == n {
                weights[k / (n + 1)]
            } else {
                points[k / (n + 1) * n + k % (n + 1)]
            },
    )
}

/// Why a face has no rule, if it has none.
pub open spec fn face_refusal<T: Scalar>(dim: int, num_dof: int, local_face: int) -> Option<
    Seq<char>,
> {
    let poly = simplex_order(dim, num_dof);
    if dim != 2 && dim != 3 {
        Some(
            "face_quadrature_simplex requires dim=2 (Triangle) or dim=3 (Tet), got "@ + decimal(
                dim as nat,
            ),
        )
    } else if poly == 0 {
        Some(
            "face_quadrature_simplex: unsupported (dim="@ + decimal(dim as nat) + ", num_dof="@
                + decimal(num_dof as nat) + ")"@,
        )
    } else if dim == 2 && local_face > 2 {
        Some(
            "invalid local_face "@ + decimal(local_face as nat) + " for Triangle (valid: 0..=2)"@,
        )
    } else if dim == 3 && local_face > 3 {
        Some("invalid local_face "@ + decimal(local_face as nat) + " for Tet (valid: 0..=3)"@)
    } else {
        match unstorable::<T>(
            interleaved(face_points(dim, poly), face_weights(dim, poly), dim - 1),
        ) {
            Some(w) => Some(unstorable_message("failed to convert "@, w)),
            None => None,
        }
    }
}

/// Face quadrature of a simplex basis with the given dimension and number of nodes.
pub fn simplex_face_rule<T: Scalar>(dim: usize, num_dof: usize, local_face: usize) -> (r:
    ReedResult<(Vec<T>, Vec<T>)>)
    ensures
        match face_refusal::<T>(dim as int, num_dof as int, local_face as int) {
            Some(m) => refused(r, ErrorKind::Basis, m),
            None => {
                let poly = simplex_order(dim as int, num_dof as int);
                r matches Ok(t) && t.0@ == stored::<T>(face_points(dim as int, poly)) && t.1@
                    == stored::<T>(face_weights(dim as int, poly))
            },
        },
{
    if dim != 2 && dim != 3 {
        return Err(
            ReedError::Basis(
                Message::new(
                    "face_quadrature_simplex requires dim=2 (Triangle) or dim=3 (Tet), got ",
                ).num(dim).done(),
            ),
        );
    }
    let poly: usize = if (dim == 2 && num_dof == 3) || (dim == 3 && num_dof == 4) {
        1
    } else if (dim == 2 && num_dof == 6) || (dim == 3 && num_dof == 10) {
        2
    } else if (dim == 2 && num_dof == 10) || (dim == 3 && num_dof == 20) {
        3
    } else {
        return Err(
            ReedError::Basis(
                Message::new("face_quadrature_simplex: unsupported (dim=").num(dim).text(
                    ", num_dof=",
                ).num(num_dof).text(")").done(),
            ),
        );
    };
    if dim == 2 && local_face > 2 {
        return Err(
            ReedError::Basis(
                Message::new("invalid local_face ").num(local_face).text(
                    " for Triangle (valid: 0..=2)",
                ).done(),
            ),
        );
    }
    if dim == 3 && local_face > 3 {
        return Err(
            ReedError::Basis(
                Message::new("invalid local_face ").num(local_face).text(
                    " for Tet (valid: 0..=3)",
                ).done(),
            ),
        );
    }
    let rule = if dim == 2 {
        line_quadrature::<T::Work>(poly + 1)
    } else {
        let count: usize = if poly == 1 {
            1
        } else if poly == 2 {
            3
        } else {
            4
        };
        tri_quadrature::<T::Work>(count)
    };
    match rule {
        Ok((points, weights)) => store_points::<T>(&points, &weights, dim - 1),
        Err(e) => Err(e),
    }
}

/// Position `c` of point `i` holds a coordinate, or the weight in the last place.
proof fn lemma_interleaved<R>(points: Seq<R>, weights: Seq<R>, n: int, i: int, c: int)
    requires
        0 <= i < weights.len(),
        0 <= c <= n,
    ensures
        0 <= i * (n + 1) + c < interleaved(points, weights, n).len(),
        interleaved(points, weights, n)[i * (n + 1) + c] == if c == n {
            weights[i]
        } else {
            points[i * n + c]
        },
{
    lemma_flat(i, weights.len() as int, c, n + 1);
}

/// Stores coordinates and weights point after point.
pub(crate) fn store_points<T: Scalar>(
    points: &Vec<T::Work>,
    weights: &Vec<T::Work>,
    n: usize,
) -> (r:
    ReedResult<(Vec<T>, Vec<T>)>)
    requires
        1 <= n <= 2,
        points@.len() == weights@.len() * n,
    ensures
        match unstorable::<T>(interleaved(points@, weights@, n as int)) {
            Some(w) => refused(
                r,
                ErrorKind::Basis,
                unstorable_message("failed to convert "@, w),
            ),
            None => r matches Ok(t) && t.0@ == stored::<T>(points@) && t.1@ == stored::<T>(weights@),
        },
{
    let head = "failed to convert ";
    let ghost all = interleaved(points@, weights@, n as int);
    let mut out: Vec<T> = Vec::new();
    let mut out_weights: Vec<T> = Vec::new();
    for i in 0..weights.len()
        invariant
            1 <= n <= 2,
            head@ == "failed to convert "@,
            points@.len() == weights@.len() * n,
            all == interleaved(points@, weights@, n as int),
            unstorable::<T>(all) == unstorable_from::<T>(all, i * (n + 1)),
            out@.len() == i * n,
            out_weights@.len() == i,
            forall|k: int| 0 <= k < i * n ==> #[trigger] out@[k] == stored::<T>(points@)[k],
            forall|k: int| 0 <= k < i ==> #[trigger] out_weights@[k] == stored::<T>(weights@)[k],
    {
        proof {
            assert(points@.len() == points.len());
            lemma_interleaved(points@, weights@, n as int, i as int, n as int);
            lemma_flat(i as int, weights@.len() as int, 0, n as int);
        }
        for c in 0..n
            invariant
                1 <= n <= 2,
                i < weights@.len(),
                head@ == "failed to convert "@,
                points@.len() == weights@.len() * n,
                points@.len() <= usize::MAX,
                unstorable::<T>(all) == unstorable_from::<T>(all, i * (n + 1) + c),
                all == interleaved(points@, weights@, n as int),
                out@.len() == i * n + c,
                forall|k: int| 0 <= k < i * n + c ==> #[trigger] out@[k] == stored::<T>(points@)[k],
        {
            proof {
                lemma_interleaved(points@, weights@, n as int, i as int, c as int);
                lemma_flat(i as int, weights@.len() as int, c as int, n as int);
                lemma_flat(i as int, weights@.len() as int, 0, n as int);
            }
            let p = points[i * n + c];
            match T::from_work(p) {
                Some(x) => {
                    out.push(x);
                },
                None => {
                    return Err(unstorable_error(head, p));
                },
            }
        }
        proof {
            assert(i * (n + 1) + n + 1 == (i + 1) * (n + 1)) by (nonlinear_arith);
            assert(i * n + n == (i + 1) * n) by (nonlinear_arith);
        }
        match T::from_work(weights[i]) {
            Some(x) => {
                out_weights.push(x);
            },
            None => {
                return Err(unstorable_error(head, weights[i]));
            },
        }
    }
    assert(out@ =~= stored::<T>(points@));
    assert(out_weights@ =~= stored::<T>(weights@));
    Ok((out, out_weights))
}

} // verus!
