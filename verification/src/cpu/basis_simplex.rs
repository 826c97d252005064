//! Nodal (H1) bases on segments, triangles and tetrahedra.

use vstd::prelude::*;

use crate::basis::BasisTrait;
use crate::cpu::convert::store_all;
#[allow(unused_imports)]
use crate::cpu::convert::{stored, unstorable, unstorable_message};
use crate::cpu::dense::DenseTables;
#[allow(unused_imports)]
use crate::cpu::dense::DenseView;
use crate::cpu::face_rules::simplex_face_rule;
#[allow(unused_imports)]
use crate::cpu::face_rules::{face_points, face_refusal, face_weights, simplex_order};
use crate::cpu::nodal::{apply_nodal, Family, NodalShape};
#[allow(unused_imports)]
use crate::cpu::nodal::{nodal_admits, nodal_refusal};
use crate::cpu::simplex_shapes::{
    line_p1_basis, line_p2_basis, line_p3_basis, line_quadrature, tet_p1_basis, tet_p2_basis,
    tet_p3_basis, tet_quadrature, tri_p1_basis, tri_p2_basis, tri_p3_basis, tri_quadrature,
};
#[allow(unused_imports)]
use crate::cpu::simplex_shapes::{
    line_p1_slopes, line_p1_values, line_p2_slopes, line_p2_values, line_p3_slopes, line_p3_values,
    line_rule_points, line_rule_weights, tet_p1_slopes, tet_p1_values, tet_p2_slopes,
    tet_p2_values, tet_p3_slopes, tet_p3_values, tet_rule, tet_rule_message, tet_rule_points,
    tet_rule_weights, tri_p1_slopes, tri_p1_values, tri_p2_slopes, tri_p2_values, tri_p3_slopes,
    tri_p3_values, tri_rule, tri_rule_message, tri_rule_points, tri_rule_weights,
};
use crate::enums::{ElemTopology, EvalMode};
use crate::error::{ErrorKind, ReedError, ReedResult};
#[allow(unused_imports)]
use crate::error::refused;
#[allow(unused_imports)]
use crate::index::lemma_flat;
#[allow(unused_imports)]
use crate::scalar::{Real, Scalar};
use crate::text::Message;
#[allow(unused_imports)]
use crate::text::decimal;

verus! {

/// Dimension of a simplex; zero for other topologies.
pub open spec fn simplex_dim(topo: ElemTopology) -> int {
    match topo {
        ElemTopology::Line => 1,
        ElemTopology::Triangle => 2,
        ElemTopology::Tet => 3,
        _ => 0,
    }
}

/// Number of nodes of a simplex basis.
pub open spec fn simplex_dofs(topo: ElemTopology, poly: int) -> int {
    match topo {
        ElemTopology::Line => poly + 1,
        ElemTopology::Triangle => if poly == 1 {
            3
        } else if poly == 2 {
            6
        } else {
            10
        },
        _ => if poly == 1 {
            4
        } else if poly == 2 {
            10
        } else {
            20
        },
    }
}

/// There is a basis of this order on this topology.
pub open spec fn simplex_supported(topo: ElemTopology, poly: int) -> bool {
    simplex_dim(topo) > 0 && 1 <= poly <= 3
}

/// There is a quadrature rule with `q` points on this topology.
pub open spec fn simplex_rule(topo: ElemTopology, q: int) -> bool {
    match topo {
        ElemTopology::Line => q >= 1,
        ElemTopology::Triangle => tri_rule(q),
        _ => tet_rule(q),
    }
}

/// Quadrature points of a simplex.
pub open spec fn simplex_points<R: Real>(topo: ElemTopology, q: int) -> Seq<R> {
    match topo {
        ElemTopology::Line => line_rule_points(q),
        ElemTopology::Triangle => tri_rule_points(q),
        _ => tet_rule_points(q),
    }
}

/// Quadrature weights of a simplex.
pub open spec fn simplex_weights<R: Real>(topo: ElemTopology, q: int) -> Seq<R> {
    match topo {
        ElemTopology::Line => line_rule_weights(q),
        ElemTopology::Triangle => tri_rule_weights(q),
        _ => tet_rule_weights(q),
    }
}

/// Shape functions at point `i` of the coordinate list `pts`.
pub open spec fn simplex_values<R: Real>(topo: ElemTopology, poly: int, pts: Seq<R>, i: int) -> Seq<
    R,
> {
    match topo {
        ElemTopology::Line => if poly == 1 {
            line_p1_values(pts[i])
        } else if poly == 2 {
            line_p2_values(pts[i])
        } else {
            line_p3_values(pts[i])
        },
        ElemTopology::Triangle => if poly == 1 {
            tri_p1_values(pts[2 * i], pts[2 * i + 1])
        } else if poly == 2 {
            tri_p2_values(pts[2 * i], pts[2 * i + 1])
        } else {
            tri_p3_values(pts[2 * i], pts[2 * i + 1])
        },
        _ => if poly == 1 {
            tet_p1_values(pts[3 * i], pts[3 * i + 1], pts[3 * i + 2])
        } else if poly == 2 {
            tet_p2_values(pts[3 * i], pts[3 * i + 1], pts[3 * i + 2])
        } else {
            tet_p3_values(pts[3 * i], pts[3 * i + 1], pts[3 * i + 2])
        },
    }
}

/// Gradients of the shape functions at point `i` of the coordinate list `pts`.
pub open spec fn simplex_slopes<R: Real>(topo: ElemTopology, poly: int, pts: Seq<R>, i: int) -> Seq<
    R,
> {
    match topo {
        ElemTopology::Line => if poly == 1 {
            line_p1_slopes(pts[i])
        } else if poly == 2 {
            line_p2_slopes(pts[i])
        } else {
            line_p3_slopes(pts[i])
        },
        ElemTopology::Triangle => if poly == 1 {
            tri_p1_slopes(pts[2 * i], pts[2 * i + 1])
        } else if poly == 2 {
            tri_p2_slopes(pts[2 * i], pts[2 * i + 1])
        } else {
            tri_p3_slopes(pts[2 * i], pts[2 * i + 1])
        },
        _ => if poly == 1 {
            tet_p1_slopes(pts[3 * i], pts[3 * i + 1], pts[3 * i + 2])
        } else if poly == 2 {
            tet_p2_slopes(pts[3 * i], pts[3 * i + 1], pts[3 * i + 2])
        } else {
            tet_p3_slopes(pts[3 * i], pts[3 * i + 1], pts[3 * i + 2])
        },
    }
}

/// Interpolation table in the working type.
pub open spec fn simplex_interp<R: Real>(topo: ElemTopology, poly: int, q: int) -> Seq<R> {
    let nd = simplex_dofs(topo, poly);
    Seq::new(
        (q * nd) as nat,
        |k: int| simplex_values::<R>(topo, poly, simplex_points(topo, q), k / nd)[k % nd],
    )
}

/// Gradient table in the working type.
pub open spec fn simplex_grad<R: Real>(topo: ElemTopology, poly: int, q: int) -> Seq<R> {
    let row = simplex_dofs(topo, poly) * simplex_dim(topo);
    Seq::new(
        (q * row) as nat,
        |k: int| simplex_slopes::<R>(topo, poly, simplex_points(topo, q), k / row)[k % row],
    )
}

/// The basis that the parameters describe.
pub open spec fn simplex_view<T: Scalar>(
    topo: ElemTopology,
    poly: usize,
    ncomp: usize,
    q: usize,
) -> DenseView<T> {
    DenseView {
        family: Family::Simplex,
        shape: NodalShape {
            dim: simplex_dim(topo) as usize,
            ncomp,
            num_dof: simplex_dofs(topo, poly as int) as usize,
            num_qpoints: q,
        },
        q_ref: stored::<T>(simplex_points(topo, q as int)),
        weights: stored::<T>(simplex_weights(topo, q as int)),
        interp: stored::<T>(simplex_interp(topo, poly as int, q as int)),
        grad: stored::<T>(simplex_grad(topo, poly as int, q as int)),
    }
}

/// The first table value that cannot be stored.
pub open spec fn simplex_unstorable<T: Scalar>(topo: ElemTopology, poly: int, q: int) -> Option<
    T::Work,
> {
    if unstorable::<T>(simplex_points(topo, q)) is Some {
        unstorable::<T>(simplex_points(topo, q))
    } else if unstorable::<T>(simplex_weights(topo, q)) is Some {
        unstorable::<T>(simplex_weights(topo, q))
    } else if unstorable::<T>(simplex_interp(topo, poly, q)) is Some {
        unstorable::<T>(simplex_interp(topo, poly, q))
    } else {
        unstorable::<T>(simplex_grad(topo, poly, q))
    }
}

/// Why the parameters are refused, if they are.
pub open spec fn simplex_refusal<T: Scalar>(topo: ElemTopology, poly: usize, q: usize) -> Option<
    Seq<char>,
> {
    if !simplex_supported(topo, poly as int) {
        if topo == ElemTopology::Pyramid || topo == ElemTopology::Prism {
            Some(
                "SimplexBasis: "@ + topo.name_text()
                    + " not implemented (requires collapsed-coordinate (Pyramid) or tensor×simplex (Prism/Wedge) transforms)"@,
            )
        } else {
            Some(
                "SimplexBasis: unsupported (topology="@ + topo.name_text() + ", poly="@ + decimal(
                    poly as nat,
                ) + ")"@,
            )
        }
    } else if !simplex_rule(topo, q as int) {
        match topo {
            ElemTopology::Line => Some(
                "line quadrature: unsupported q="@ + decimal(q as nat) + " (need >= 1)"@,
            ),
            ElemTopology::Triangle => Some(tri_rule_message(q as nat)),
            _ => Some(tet_rule_message(q as nat)),
        }
    } else {
        match simplex_unstorable::<T>(topo, poly as int, q as int) {
            Some(w) => Some(unstorable_message("SimplexBasis: failed to convert "@, w)),
            None => None,
        }
    }
}

/// Nodal basis on a simplex.
pub struct SimplexBasis<T: Real> {
    topo: ElemTopology,
    tables: DenseTables<T>,
}

impl<T: Real> View for SimplexBasis<T> {
    type V = DenseView<T>;

    closed spec fn view(&self) -> DenseView<T> {
        self.tables@
    }
}

fn shape_functions<R: Real>(topo: ElemTopology, poly: usize, pts: &Vec<R>, i: usize) -> (r: (
    Vec<R>,
    Vec<R>,
))
    requires
        simplex_supported(topo, poly as int),
        (i + 1) * simplex_dim(topo) <= pts@.len(),
    ensures
        r.0@ == simplex_values(topo, poly as int, pts@, i as int),
        r.1@ == simplex_slopes(topo, poly as int, pts@, i as int),
        r.0@.len() == simplex_dofs(topo, poly as int),
        r.1@.len() == simplex_dofs(topo, poly as int) * simplex_dim(topo),
{
    let n: usize = pts.len();
    match topo {
        ElemTopology::Line => {
            let t = pts[i];
            if poly == 1 {
                line_p1_basis(t)
            } else if poly == 2 {
                line_p2_basis(t)
            } else {
                line_p3_basis(t)
            }
        },
        ElemTopology::Triangle => {
            let (x, y) = (pts[2 * i], pts[2 * i + 1]);
            if poly == 1 {
                tri_p1_basis(x, y)
            } else if poly == 2 {
                tri_p2_basis(x, y)
            } else {
                tri_p3_basis(x, y)
            }
        },
        _ => {
            let (x, y, z) = (pts[3 * i], pts[3 * i + 1], pts[3 * i + 2]);
            if poly == 1 {
                tet_p1_basis(x, y, z)
            } else if poly == 2 {
                tet_p2_basis(x, y, z)
            } else {
                tet_p3_basis(x, y, z)
            }
        },
    }
}

/// Tables of values and gradients at all points.
fn shape_tables<R: Real>(topo: ElemTopology, poly: usize, q: usize, pts: &Vec<R>) -> (r: (
    Vec<R>,
    Vec<R>,
))
    requires
        simplex_supported(topo, poly as int),
        pts@ == simplex_points::<R>(topo, q as int),
        pts@.len() == q * simplex_dim(topo),
    ensures
        r.0@ == simplex_interp::<R>(topo, poly as int, q as int),
        r.1@ == simplex_grad::<R>(topo, poly as int, q as int),
{
    let ghost nd = simplex_dofs(topo, poly as int);
    let ghost row = nd * simplex_dim(topo);
    let ghost goal = simplex_interp::<R>(topo, poly as int, q as int);
    let ghost goal_grad = simplex_grad::<R>(topo, poly as int, q as int);
    let mut interp: Vec<R> = Vec::new();
    let mut grad: Vec<R> = Vec::new();
    proof {
        assert(0 * nd == 0 && 0 * row == 0);
    }
    for i in 0..q
        invariant
            simplex_supported(topo, poly as int),
            pts@ == simplex_points::<R>(topo, q as int),
            pts@.len() == q * simplex_dim(topo),
            nd == simplex_dofs(topo, poly as int),
            row == nd * simplex_dim(topo),
            goal == simplex_interp::<R>(topo, poly as int, q as int),
            goal_grad == simplex_grad::<R>(topo, poly as int, q as int),
            interp@.len() == i * nd,
            grad@.len() == i * row,
            forall|k: int| 0 <= k < interp@.len() ==> #[trigger] interp@[k] == goal[k],
            forall|k: int| 0 <= k < grad@.len() ==> #[trigger] grad@[k] == goal_grad[k],
    {
        proof {
            let dim = simplex_dim(topo);
            assert((i + 1) * dim <= q * dim) by (nonlinear_arith)
                requires
                    i + 1 <= q,
                    0 <= dim,
            ;
            assert(i * nd + nd == (i + 1) * nd) by (nonlinear_arith);
            assert(i * row + row == (i + 1) * row) by (nonlinear_arith);
            lemma_row_positive(topo, poly as int);
        }
        let (mut values, mut slopes) = shape_functions(topo, poly, pts, i);
        let ghost (phi, dphi) = (values@, slopes@);
        let ghost (before, before_grad) = (interp@, grad@);
        interp.append(&mut values);
        grad.append(&mut slopes);
        proof {
            assert forall|k: int| 0 <= k < interp@.len() implies #[trigger] interp@[k] == goal[k] by {
                if k >= i * nd {
                    lemma_flat(i as int, q as int, k - i * nd, nd);
                    assert(interp@[k] == phi[k - i * nd]);
                } else {
                    assert(interp@[k] == before[k]);
                }
            }
            assert forall|k: int| 0 <= k < grad@.len() implies #[trigger] grad@[k] == goal_grad[k] by {
                if k >= i * row {
                    lemma_flat(i as int, q as int, k - i * row, row);
                    assert(grad@[k] == dphi[k - i * row]);
                } else {
                    assert(grad@[k] == before_grad[k]);
                }
            }
        }
    }
    assert(interp@ =~= goal);
    assert(grad@ =~= goal_grad);
    (interp, grad)
}

/// Table rows are not empty.
proof fn lemma_row_positive(topo: ElemTopology, poly: int)
    requires
        simplex_supported(topo, poly),
    ensures
        0 < simplex_dofs(topo, poly) <= 20,
        1 <= simplex_dim(topo) <= 3,
        0 < simplex_dofs(topo, poly) * simplex_dim(topo) <= 60,
{
}

impl<T: Scalar> SimplexBasis<T> {
    /// Builds the basis of order `poly` on a segment, triangle or tetrahedron, with `q`
    /// quadrature points.
    pub fn new(topo: ElemTopology, poly: usize, ncomp: usize, q: usize) -> (r: ReedResult<Self>)
        requires
            topo == ElemTopology::Line ==> q <= i64::MAX && q * 4 <= usize::MAX,
        ensures
            match simplex_refusal::<T>(topo, poly, q) {
                Some(m) => refused(r, ErrorKind::Basis, m),
                None => r matches Ok(b) && b.wf() && b.topology_of() == topo && b@ == simplex_view::<T>(
                    topo,
                    poly,
                    ncomp,
                    q,
                ),
            },
    {
        let supported = match topo {
            ElemTopology::Line | ElemTopology::Triangle | ElemTopology::Tet => 1 <= poly && poly
                <= 3,
            _ => false,
        };
        if !supported {
            return match topo {
                ElemTopology::Pyramid | ElemTopology::Prism => Err(
                    ReedError::Basis(
                        Message::new("SimplexBasis: ").text(topo.name()).text(
                            " not implemented (requires collapsed-coordinate (Pyramid) or tensor×simplex (Prism/Wedge) transforms)",
                        ).done(),
                    ),
                ),
                _ => Err(
                    ReedError::Basis(
                        Message::new("SimplexBasis: unsupported (topology=").text(
                            topo.name(),
                        ).text(", poly=").num(poly).text(")").done(),
                    ),
                ),
            };
        }
        let rule = match topo {
            ElemTopology::Line => line_quadrature::<T::Work>(q),
            ElemTopology::Triangle => tri_quadrature::<T::Work>(q),
            _ => tet_quadrature::<T::Work>(q),
        };
        let (points, weights_work) = match rule {
            Ok(t) => t,
            Err(e) => {
                return Err(e);
            },
        };
        let head = "SimplexBasis: failed to convert ";
        let q_ref = match store_all::<T>(&points, head) {
            Ok(v) => v,
            Err(e) => {
                return Err(e);
            },
        };
        let weights = match store_all::<T>(&weights_work, head) {
            Ok(v) => v,
            Err(e) => {
                return Err(e);
            },
        };
        let (interp_work, grad_work) = shape_tables(topo, poly, q, &points);
        let interp = match store_all::<T>(&interp_work, head) {
            Ok(v) => v,
            Err(e) => {
                return Err(e);
            },
        };
        let grad = match store_all::<T>(&grad_work, head) {
            Ok(v) => v,
            Err(e) => {
                return Err(e);
            },
        };
        let (dim, num_dof): (usize, usize) = match topo {
            ElemTopology::Line => (1, poly + 1),
            ElemTopology::Triangle => (
                2,
                if poly == 1 {
                    3
                } else if poly == 2 {
                    6
                } else {
                    10
                },
            ),
            _ => (
                3,
                if poly == 1 {
                    4
                } else if poly == 2 {
                    10
                } else {
                    20
                },
            ),
        };
        proof {
            lemma_row_positive(topo, poly as int);
            let (qi, nd, d) = (q as int, num_dof as int, dim as int);
            assert(qi * nd * d == qi * (nd * d)) by (nonlinear_arith);
            assert(qi * nd <= qi * (nd * d)) by (nonlinear_arith)
                requires
                    0 <= qi,
                    0 < nd,
                    1 <= d,
            ;
            assert(0 <= qi * nd) by (nonlinear_arith)
                requires
                    0 <= qi,
                    0 <= nd,
            ;
            if topo == ElemTopology::Line {
                assert(qi * (nd * d) <= qi * 4) by (nonlinear_arith)
                    requires
                        nd <= 4,
                        d == 1,
                        0 <= qi,
                ;
            } else {
                assert(qi * (nd * d) <= 420) by (nonlinear_arith)
                    requires
                        0 <= nd * d <= 60,
                        0 <= qi <= 7,
                ;
            }
        }
        let shape = NodalShape { dim, ncomp, num_dof, num_qpoints: q };
        let tables = DenseTables { family: Family::Simplex, shape, q_ref, weights, interp, grad };
        assert(tables@.valid());
        Ok(SimplexBasis { topo, tables })
    }
}

impl<T: Real> SimplexBasis<T> {
    /// The basis is valid.
    pub closed spec fn inv(&self) -> bool {
        self.tables@.valid()
    }

    /// The reference element.
    pub closed spec fn topology_of(&self) -> ElemTopology {
        self.topo
    }

    /// The reference element.
    pub fn topology(&self) -> (t: ElemTopology)
        ensures
            t == self.topology_of(),
    {
        self.topo
    }

    /// Interpolation table, row-major points × nodes.
    pub fn interp_matrix(&self) -> (m: &[T])
        ensures
            m@ == self@.interp,
    {
        self.tables.interp.as_slice()
    }

    /// Gradient table, row-major points × nodes × directions.
    pub fn grad_matrix(&self) -> (m: &[T])
        ensures
            m@ == self@.grad,
    {
        self.tables.grad.as_slice()
    }
}

impl<T: Scalar> BasisTrait<T> for SimplexBasis<T> {
    open spec fn wf(&self) -> bool {
        self.inv() && self@.valid()
    }

    open spec fn dimension(&self) -> int {
        self@.shape.dim as int
    }

    open spec fn dofs(&self) -> int {
        self@.shape.num_dof as int
    }

    open spec fn qpoints(&self) -> int {
        self@.shape.num_qpoints as int
    }

    open spec fn comps(&self) -> int {
        self@.shape.ncomp as int
    }

    open spec fn weight_values(&self) -> Seq<T> {
        self@.weights
    }

    open spec fn point_values(&self) -> Seq<T> {
        self@.q_ref
    }

    open spec fn admits(
        &self,
        num_elem: int,
        transpose: bool,
        eval_mode: EvalMode,
        ulen: nat,
        vlen: nat,
    ) -> bool {
        nodal_admits(
            self@.family,
            self@.shape,
            num_elem,
            transpose,
            eval_mode,
            ulen,
            vlen,
        )
    }

    open spec fn refusal(
        &self,
        num_elem: int,
        transpose: bool,
        eval_mode: EvalMode,
        ulen: nat,
        vlen: nat,
    ) -> Option<(ErrorKind, Seq<char>)> {
        nodal_refusal(
            self@.family,
            self@.shape,
            num_elem,
            transpose,
            eval_mode,
            ulen,
            vlen,
        )
    }

    open spec fn applied(
        &self,
        num_elem: int,
        transpose: bool,
        eval_mode: EvalMode,
        u: Seq<T>,
        v: Seq<T>,
    ) -> Seq<T> {
        self@.applied(num_elem, transpose, eval_mode, u, v)
    }

    open spec fn tensor_tables(&self) -> Option<(Seq<T>, Seq<T>, Seq<T>, int, int)> {
        None
    }

    open spec fn face_weight_values(&self, local_face: int) -> Option<Seq<T>> {
        let (dim, nd) = (self@.shape.dim as int, self@.shape.num_dof as int);
        if face_refusal::<T>(dim, nd, local_face) is Some {
            None
        } else {
            Some(stored::<T>(face_weights(dim, simplex_order(dim, nd))))
        }
    }

    open spec fn face_point_values(&self, local_face: int) -> Option<Seq<T>> {
        let (dim, nd) = (self@.shape.dim as int, self@.shape.num_dof as int);
        if face_refusal::<T>(dim, nd, local_face) is Some {
            None
        } else {
            Some(stored::<T>(face_points(dim, simplex_order(dim, nd))))
        }
    }

    fn dim(&self) -> (n: usize) {
        self.tables.shape.dim
    }

    fn num_dof(&self) -> (n: usize) {
        self.tables.shape.num_dof
    }

    fn num_qpoints(&self) -> (n: usize) {
        self.tables.shape.num_qpoints
    }

    fn num_comp(&self) -> (n: usize) {
        self.tables.shape.ncomp
    }

    fn apply(
        &self,
        num_elem: usize,
        transpose: bool,
        eval_mode: EvalMode,
        u: &[T],
        v: &mut [T],
    ) -> (r: ReedResult<()>) {
        apply_nodal(&self.tables, num_elem, transpose, eval_mode, u, v)
    }

    fn q_weights(&self) -> (w: &[T]) {
        self.tables.weights.as_slice()
    }

    fn q_ref(&self) -> (x: &[T]) {
        self.tables.q_ref.as_slice()
    }

    fn tensor_fdm_1d_data(&self) -> (r: Option<(&[T], &[T], &[T], usize, usize)>) {
        None
    }

    fn face_q_weights(&self, local_face: usize) -> (r: Option<Vec<T>>) {
        let s = self.tables.shape;
        match simplex_face_rule::<T>(s.dim, s.num_dof, local_face) {
            Ok((_, w)) => Some(w),
            Err(_) => None,
        }
    }

    fn face_q_ref(&self, local_face: usize) -> (r: Option<Vec<T>>) {
        let s = self.tables.shape;
        match simplex_face_rule::<T>(s.dim, s.num_dof, local_face) {
            Ok((x, _)) => Some(x),
            Err(_) => None,
        }
    }
}

} // verus!
