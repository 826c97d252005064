//! Nodal (H1) basis on the prism: triangle times segment.

use vstd::prelude::*;

use crate::basis::BasisTrait;
use crate::cpu::basis_simplex::SimplexBasis;
#[allow(unused_imports)]
use crate::cpu::basis_simplex::{simplex_dofs, simplex_refusal, simplex_view};
use crate::cpu::convert::{store_all, widen_all};
#[allow(unused_imports)]
use crate::cpu::convert::{stored, unstorable, unstorable_message, widened_all};
use crate::cpu::dense::DenseTables;
#[allow(unused_imports)]
use crate::cpu::dense::DenseView;
use crate::cpu::face_rules::store_points;
#[allow(unused_imports)]
use crate::cpu::face_rules::interleaved;
use crate::cpu::lagrange_tables::{build_grad, build_interp};
#[allow(unused_imports)]
use crate::cpu::lagrange_tables::{slope_table, value_table};
use crate::cpu::nodal::{apply_nodal, Family, NodalShape};
#[allow(unused_imports)]
use crate::cpu::nodal::{nodal_admits, nodal_refusal};
use crate::cpu::quadrature::{gauss_lobatto_nodes, gauss_quadrature};
#[allow(unused_imports)]
use crate::cpu::quadrature::{gauss_points, gauss_weights, lobatto_points};
use crate::enums::{ElemTopology, EvalMode};
use crate::error::{ErrorKind, ReedResult};
#[allow(unused_imports)]
use crate::error::refused;
#[allow(unused_imports)]
use crate::index::{lemma_flat, lemma_mul_le, lemma_split, lemma_split3};
#[allow(unused_imports)]
use crate::scalar::{Real, Scalar};

verus! {

/// Nodes of the segment factor: Gauss–Lobatto points, or the two ends.
pub open spec fn prism_nodes<R: Real>(line_p: int) -> Seq<R> {
    if line_p >= 2 {
        lobatto_points(line_p)
    } else {
        seq![R::int_val(-1), R::one_val()]
    }
}

/// Interpolation table of the segment factor in the working type.
pub open spec fn prism_line_values<R: Real>(line_p: int, line_q: int) -> Seq<R> {
    value_table(prism_nodes(line_p), gauss_points(line_q))
}

/// Differentiation table of the segment factor in the working type.
pub open spec fn prism_line_slopes<T: Scalar>(line_p: int, line_q: int) -> Seq<T::Work> {
    slope_table(
        prism_nodes(line_p),
        gauss_points(line_q),
        widened_all::<T>(stored::<T>(prism_line_values(line_p, line_q))),
    )
}

/// The basis that the parameters describe: products of triangle and segment shape functions, the
/// segment index running fastest.
pub open spec fn prism_view<T: Scalar>(
    tri_poly: usize,
    line_p: usize,
    tri_q: usize,
    line_q: usize,
    ncomp: usize,
) -> DenseView<T> {
    let tri = simplex_view::<T>(ElemTopology::Triangle, tri_poly, 1, tri_q);
    let points = stored::<T>(gauss_points(line_q as int));
    let line_weights = stored::<T>(gauss_weights(line_q as int));
    let values = stored::<T>(prism_line_values(line_p as int, line_q as int));
    let slopes = stored::<T>(prism_line_slopes::<T>(line_p as int, line_q as int));
    let (td, tq) = (tri.shape.num_dof as int, tri_q as int);
    let (ld, lq) = (prism_nodes::<T::Work>(line_p as int).len() as int, line_q as int);
    let (nd, nq) = (td * ld, tq * lq);
    DenseView {
        family: Family::Prism,
        shape: NodalShape { dim: 3, ncomp, num_dof: nd as usize, num_qpoints: nq as usize },
        q_ref: Seq::new(
            (nq * 3) as nat,
            |k: int|
                if k % 3 < 2 {
                    tri.q_ref[k / 3 / lq * 2 + k % 3]
                } else {
                    points[k / 3 % lq]
                },
        ),
        weights: Seq::new(
            nq as nat,
            |k: int| tri.weights[k / lq].times(line_weights[k % lq]),
        ),
        interp: Seq::new(
            (nq * nd) as nat,
            |k: int|
                {
                    let (qpt, dof) = (k / nd, k % nd);
                    tri.interp[qpt / lq * td + dof / ld].times(values[qpt % lq * ld + dof % ld])
                },
        ),
        grad: Seq::new(
            (nq * nd * 3) as nat,
            |k: int|
                {
                    let (qpt, dof, d) = (k / 3 / nd, k / 3 % nd, k % 3);
                    let (it, il, dt, dl) = (qpt / lq, qpt % lq, dof / ld, dof % ld);
                    if d < 2 {
                        tri.grad[(it * td + dt) * 2 + d].times(values[il * ld + dl])
                    } else {
                        tri.interp[it * td + dt].times(slopes[il * ld + dl])
                    }
                },
        ),
    }
}

/// The first value of the segment factor that cannot be stored.
pub open spec fn prism_unstorable<T: Scalar>(line_p: int, line_q: int) -> Option<T::Work> {
    if unstorable::<T>(prism_line_values(line_p, line_q)) is Some {
        unstorable::<T>(prism_line_values(line_p, line_q))
    } else if unstorable::<T>(prism_line_slopes::<T>(line_p, line_q)) is Some {
        unstorable::<T>(prism_line_slopes::<T>(line_p, line_q))
    } else {
        unstorable::<T>(interleaved(gauss_points(line_q), gauss_weights(line_q), 1))
    }
}

/// Why the parameters are refused, if they are.
pub open spec fn prism_refusal<T: Scalar>(
    tri_poly: usize,
    line_p: usize,
    tri_q: usize,
    line_q: usize,
) -> Option<Seq<char>> {
    if simplex_refusal::<T>(ElemTopology::Triangle, tri_poly, tri_q) is Some {
        simplex_refusal::<T>(ElemTopology::Triangle, tri_poly, tri_q)
    } else {
        match prism_unstorable::<T>(line_p as int, line_q as int) {
            Some(w) => Some(unstorable_message("failed to convert "@, w)),
            None => None,
        }
    }
}

/// Nodal basis on the prism.
pub struct PrismBasis<T: Real> {
    tables: DenseTables<T>,
}

impl<T: Real> View for PrismBasis<T> {
    type V = DenseView<T>;

    closed spec fn view(&self) -> DenseView<T> {
        self.tables@
    }
}

impl<T: Real> PrismBasis<T> {
    /// The basis is valid.
    pub closed spec fn inv(&self) -> bool {
        self.tables@.valid()
    }

    /// Value of one shape function at one quadrature point.
    pub fn interp_val(&self, qpt: usize, dof: usize) -> (w: T)
        requires
            self.inv(),
            qpt < self@.shape.num_qpoints,
            dof < self@.shape.num_dof,
        ensures
            w == self@.interp[qpt * self@.shape.num_dof + dof],
    {
        self.tables.interp_val(qpt, dof)
    }
}

/// Sizes of the tables stay in machine range.
pub open spec fn prism_fits(tri_poly: int, line_p: int, tri_q: int, line_q: int) -> bool {
    let td = simplex_dofs(ElemTopology::Triangle, tri_poly);
    let ld = if line_p >= 2 {
        line_p
    } else {
        2
    };
    &&& line_q * ld <= usize::MAX
    &&& td * ld <= usize::MAX
    &&& tri_q * line_q * (td * ld) * 3 <= usize::MAX
    &&& tri_q * line_q * 3 <= usize::MAX
}

/// The two factors of a prism basis.
struct Factors<T: Real> {
    td: usize,
    tq: usize,
    ld: usize,
    lq: usize,
    tri_points: Vec<T>,
    tri_weights: Vec<T>,
    tri_values: Vec<T>,
    tri_slopes: Vec<T>,
    line_points: Vec<T>,
    line_weights: Vec<T>,
    line_values: Vec<T>,
    line_slopes: Vec<T>,
}

impl<T: Real> Factors<T> {
    spec fn valid(&self) -> bool {
        let (td, tq, ld, lq) = (self.td as int, self.tq as int, self.ld as int, self.lq as int);
        &&& 0 < td && 0 < tq && 0 < ld
        &&& td * ld <= usize::MAX
        &&& tq * lq <= usize::MAX
        &&& tq * lq * 3 <= usize::MAX
        &&& tq * lq * (td * ld) <= usize::MAX
        &&& tq * lq * (td * ld) * 3 <= usize::MAX
        &&& self.tri_points@.len() == tq * 2
        &&& self.tri_weights@.len() == tq
        &&& self.tri_values@.len() == tq * td
        &&& self.tri_slopes@.len() == tq * td * 2
        &&& self.line_points@.len() == lq
        &&& self.line_weights@.len() == lq
        &&& self.line_values@.len() == lq * ld
        &&& self.line_slopes@.len() == lq * ld
    }

    spec fn point(&self, k: int) -> T {
        let lq = self.lq as int;
        if k % 3 < 2 {
            self.tri_points@[k / 3 / lq * 2 + k % 3]
        } else {
            self.line_points@[k / 3 % lq]
        }
    }

    spec fn weight(&self, k: int) -> T {
        let lq = self.lq as int;
        self.tri_weights@[k / lq].times(self.line_weights@[k % lq])
    }

    spec fn value(&self, qpt: int, dof: int) -> T {
        let (td, ld, lq) = (self.td as int, self.ld as int, self.lq as int);
        self.tri_values@[qpt / lq * td + dof / ld].times(
            self.line_values@[qpt % lq * ld + dof % ld],
        )
    }

    spec fn slope(&self, qpt: int, dof: int, d: int) -> T {
        let (td, ld, lq) = (self.td as int, self.ld as int, self.lq as int);
        let (it, il, dt, dl) = (qpt / lq, qpt % lq, dof / ld, dof % ld);
        if d < 2 {
            self.tri_slopes@[(it * td + dt) * 2 + d].times(self.line_values@[il * ld + dl])
        } else {
            self.tri_values@[it * td + dt].times(self.line_slopes@[il * ld + dl])
        }
    }

    fn points(&self) -> (r: Vec<T>)
        requires
            self.valid(),
        ensures
            r@ == Seq::new((self.tq * self.lq * 3) as nat, |k: int| self.point(k)),
    {
        let total: usize = self.tq * self.lq * 3;
        let mut r: Vec<T> = Vec::new();
        for k in 0..total
            invariant
                self.valid(),
                total == self.tq * self.lq * 3,
                r@.len() == k,
                forall|i: int| 0 <= i < k ==> #[trigger] r@[i] == self.point(i),
        {
            proof {
                lemma_split3(k as int, self.tq as int, self.lq as int, 3);
                assert(self.tri_points@.len() == self.tri_points.len());
            }
            let c: usize = k % 3;
            if c < 2 {
                r.push(self.tri_points[k / 3 / self.lq * 2 + c]);
            } else {
                r.push(self.line_points[k / 3 % self.lq]);
            }
        }
        assert(r@ =~= Seq::new((self.tq * self.lq * 3) as nat, |k: int| self.point(k)));
        r
    }

    fn weights(&self) -> (r: Vec<T>)
        requires
            self.valid(),
        ensures
            r@ == Seq::new((self.tq * self.lq) as nat, |k: int| self.weight(k)),
    {
        let total: usize = self.tq * self.lq;
        let mut r: Vec<T> = Vec::new();
        for k in 0..total
            invariant
                self.valid(),
                total == self.tq * self.lq,
                r@.len() == k,
                forall|i: int| 0 <= i < k ==> #[trigger] r@[i] == self.weight(i),
        {
            proof {
                lemma_split(k as int, self.tq as int, self.lq as int);
            }
            r.push(self.tri_weights[k / self.lq].mul(self.line_weights[k % self.lq]));
        }
        assert(r@ =~= Seq::new((self.tq * self.lq) as nat, |k: int| self.weight(k)));
        r
    }

    /// Table positions of both factors are in range.
    proof fn lemma_factors(&self, qpt: int, dof: int)
        requires
            self.valid(),
            0 <= qpt < self.tq * self.lq,
            0 <= dof < self.td * self.ld,
        ensures
            0 < self.lq,
            0 <= qpt / (self.lq as int) * self.td,
            0 <= qpt / (self.lq as int) * self.td + dof / (self.ld as int) < self.tq * self.td,
            0 <= qpt % (self.lq as int) * self.ld,
            0 <= qpt % (self.lq as int) * self.ld + dof % (self.ld as int) < self.lq * self.ld,
            0 <= dof / (self.ld as int) < self.td,
            0 <= dof % (self.ld as int) < self.ld,
            self.tq * self.td * 2 <= usize::MAX,
            self.lq * self.ld <= usize::MAX,
    {
        let (td, tq, ld, lq) = (self.td as int, self.tq as int, self.ld as int, self.lq as int);
        lemma_split(qpt, tq, lq);
        lemma_split(dof, td, ld);
        lemma_flat(qpt / lq, tq, dof / ld, td);
        lemma_flat(qpt % lq, lq, dof % ld, ld);
        lemma_mul_le(qpt / lq, qpt / lq, td, td);
        lemma_mul_le(qpt % lq, qpt % lq, ld, ld);
        assert(self.tri_slopes@.len() == self.tri_slopes.len());
        assert(self.line_values@.len() == self.line_values.len());
    }

    fn values(&self) -> (r: Vec<T>)
        requires
            self.valid(),
        ensures
            r@ == Seq::new(
                (self.tq * self.lq * (self.td * self.ld)) as nat,
                |k: int| self.value(k / (self.td * self.ld), k % (self.td * self.ld)),
            ),
    {
        let nd: usize = self.td * self.ld;
        let nq: usize = self.tq * self.lq;
        let total: usize = nq * nd;
        let mut r: Vec<T> = Vec::new();
        for k in 0..total
            invariant
                self.valid(),
                nd == self.td * self.ld,
                nq == self.tq * self.lq,
                total == nq * nd,
                r@.len() == k,
                forall|i: int|
                    0 <= i < k ==> #[trigger] r@[i] == self.value(
                        i / (self.td * self.ld),
                        i % (self.td * self.ld),
                    ),
        {
            proof {
                lemma_split(k as int, nq as int, nd as int);
            }
            let qpt: usize = k / nd;
            let dof: usize = k % nd;
            proof {
                self.lemma_factors(qpt as int, dof as int);
            }
            let a = self.tri_values[qpt / self.lq * self.td + dof / self.ld];
            let b = self.line_values[qpt % self.lq * self.ld + dof % self.ld];
            r.push(a.mul(b));
        }
        assert(r@ =~= Seq::new(
            (self.tq * self.lq * (self.td * self.ld)) as nat,
            |k: int| self.value(k / (self.td * self.ld), k % (self.td * self.ld)),
        ));
        r
    }

    fn slopes(&self) -> (r: Vec<T>)
        requires
            self.valid(),
        ensures
            r@ == Seq::new(
                (self.tq * self.lq * (self.td * self.ld) * 3) as nat,
                |k: int|
                    self.slope(k / 3 / (self.td * self.ld), k / 3 % (self.td * self.ld), k % 3),
            ),
    {
        let nd: usize = self.td * self.ld;
        let nq: usize = self.tq * self.lq;
        let total: usize = nq * nd * 3;
        let mut r: Vec<T> = Vec::new();
        for k in 0..total
            invariant
                self.valid(),
                nd == self.td * self.ld,
                nq == self.tq * self.lq,
                total == nq * nd * 3,
                r@.len() == k,
                forall|i: int|
                    0 <= i < k ==> #[trigger] r@[i] == self.slope(
                        i / 3 / (self.td * self.ld),
                        i / 3 % (self.td * self.ld),
                        i % 3,
                    ),
        {
            proof {
                lemma_split3(k as int, nq as int, nd as int, 3);
            }
            let d: usize = k % 3;
            let qpt: usize = k / 3 / nd;
            let dof: usize = k / 3 % nd;
            proof {
                self.lemma_factors(qpt as int, dof as int);
            }
            let t: usize = qpt / self.lq * self.td + dof / self.ld;
            let l: usize = qpt % self.lq * self.ld + dof % self.ld;
            if d < 2 {
                r.push(self.tri_slopes[t * 2 + d].mul(self.line_values[l]));
            } else {
                r.push(self.tri_values[t].mul(self.line_slopes[l]));
            }
        }
        assert(r@ =~= Seq::new(
            (self.tq * self.lq * (self.td * self.ld) * 3) as nat,
            |k: int| self.slope(k / 3 / (self.td * self.ld), k / 3 % (self.td * self.ld), k % 3),
        ));
        r
    }
}

fn copied<T: Real>(s: &[T]) -> (r: Vec<T>)
    ensures
        r@ == s@,
{
    let mut r: Vec<T> = Vec::new();
    for i in 0..s.len()
        invariant
            r@ == s@.take(i as int),
    {
        r.push(s[i]);
        assert(r@ =~= s@.take(i + 1));
    }
    assert(r@ =~= s@);
    r
}

impl<T: Scalar> PrismBasis<T> {
    /// Builds the basis from a triangle basis of order `tri_poly` with `tri_q` points and a
    /// segment basis with `line_p` nodes, at least two, and `line_q` points.
    pub fn new(tri_poly: usize, line_p: usize, tri_q: usize, line_q: usize, ncomp: usize) -> (r:
        ReedResult<Self>)
        requires
            line_p <= i64::MAX,
            line_q <= i64::MAX,
            simplex_refusal::<T>(ElemTopology::Triangle, tri_poly, tri_q) is None ==> prism_fits(
                tri_poly as int,
                line_p as int,
                tri_q as int,
                line_q as int,
            ),
        ensures
            match prism_refusal::<T>(tri_poly, line_p, tri_q, line_q) {
                Some(m) => refused(r, ErrorKind::Basis, m),
                None => r matches Ok(b) && b.wf() && b@ == prism_view::<T>(
                    tri_poly,
                    line_p,
                    tri_q,
                    line_q,
                    ncomp,
                ),
            },
    {
        let tri = match SimplexBasis::<T>::new(ElemTopology::Triangle, tri_poly, 1, tri_q) {
            Ok(b) => b,
            Err(e) => {
                return Err(e);
            },
        };
        let nodes = if line_p >= 2 {
            match gauss_lobatto_nodes::<T::Work>(line_p) {
                Ok(v) => v,
                Err(e) => {
                    return Err(e);
                },
            }
        } else {
            let ends = vec![<T::Work as Real>::from_int(-1), <T::Work as Real>::one()];
            assert(ends@ =~= prism_nodes::<T::Work>(line_p as int));
            ends
        };
        let (points, weights) = match gauss_quadrature::<T::Work>(line_q) {
            Ok(t) => t,
            Err(e) => {
                return Err(e);
            },
        };
        let head = "failed to convert ";
        let line_values = match store_all::<T>(&build_interp(&nodes, &points), head) {
            Ok(v) => v,
            Err(e) => {
                return Err(e);
            },
        };
        let wide = widen_all::<T>(&line_values);
        let line_slopes = match store_all::<T>(&build_grad(&nodes, &points, &wide), head) {
            Ok(v) => v,
            Err(e) => {
                return Err(e);
            },
        };
        let (line_points, line_weights) = match store_points::<T>(&points, &weights, 1) {
            Ok(t) => t,
            Err(e) => {
                return Err(e);
            },
        };
        let factors = Factors {
            td: tri.num_dof(),
            tq: tri.num_qpoints(),
            ld: nodes.len(),
            lq: line_q,
            tri_points: copied(tri.q_ref()),
            tri_weights: copied(tri.q_weights()),
            tri_values: copied(tri.interp_matrix()),
            tri_slopes: copied(tri.grad_matrix()),
            line_points,
            line_weights,
            line_values,
            line_slopes,
        };
        proof {
            let (td, tq, ld, lq) = (
                factors.td as int,
                factors.tq as int,
                factors.ld as int,
                factors.lq as int,
            );
            lemma_mul_le(tq, tq, lq, lq);
            lemma_mul_le(td, td, ld, ld);
            lemma_mul_le(tq * lq, tq * lq, 1, 3);
            lemma_mul_le(tq * lq, tq * lq, td * ld, td * ld);
            lemma_mul_le(tq * lq * (td * ld), tq * lq * (td * ld), 1, 3);
            assert(factors.valid());
        }
        let shape = NodalShape {
            dim: 3,
            ncomp,
            num_dof: factors.td * factors.ld,
            num_qpoints: factors.tq * factors.lq,
        };
        let tables = DenseTables {
            family: Family::Prism,
            shape,
            q_ref: factors.points(),
            weights: factors.weights(),
            interp: factors.values(),
            grad: factors.slopes(),
        };
        proof {
            let goal = prism_view::<T>(tri_poly, line_p, tri_q, line_q, ncomp);
            assert(tables.q_ref@ =~= goal.q_ref);
            assert(tables.weights@ =~= goal.weights);
            assert(tables.interp@ =~= goal.interp);
            assert(tables.grad@ =~= goal.grad);
            assert(tables@.valid());
        }
        Ok(PrismBasis { tables })
    }
}

impl<T: Real> BasisTrait<T> for PrismBasis<T> {
    open spec fn wf(&self) -> bool {
        self.inv() && self@.valid()
    }

    open spec fn dimension(&self) -> int {
        self@.shape.dim as int
    }

    open spec fn dofs(&self) -> int {
        self@.shape.num_dof as int
    }

    open spec fn qpoints(&self) -> int {
        self@.shape.num_qpoints as int
    }

    open spec fn comps(&self) -> int {
        self@.shape.ncomp as int
    }

    open spec fn weight_values(&self) -> Seq<T> {
        self@.weights
    }

    open spec fn point_values(&self) -> Seq<T> {
        self@.q_ref
    }

    open spec fn admits(
        &self,
        num_elem: int,
        transpose: bool,
        eval_mode: EvalMode,
        ulen: nat,
        vlen: nat,
    ) -> bool {
        nodal_admits(
            self@.family,
            self@.shape,
            num_elem,
            transpose,
            eval_mode,
            ulen,
            vlen,
        )
    }

    open spec fn refusal(
        &self,
        num_elem: int,
        transpose: bool,
        eval_mode: EvalMode,
        ulen: nat,
        vlen: nat,
    ) -> Option<(ErrorKind, Seq<char>)> {
        nodal_refusal(
            self@.family,
            self@.shape,
            num_elem,
            transpose,
            eval_mode,
            ulen,
            vlen,
        )
    }

    open spec fn applied(
        &self,
        num_elem: int,
        transpose: bool,
        eval_mode: EvalMode,
        u: Seq<T>,
        v: Seq<T>,
    ) -> Seq<T> {
        self@.applied(num_elem, transpose, eval_mode, u, v)
    }

    open spec fn tensor_tables(&self) -> Option<(Seq<T>, Seq<T>, Seq<T>, int, int)> {
        None
    }

    open spec fn face_weight_values(&self, local_face: int) -> Option<Seq<T>> {
        None
    }

    open spec fn face_point_values(&self, local_face: int) -> Option<Seq<T>> {
        None
    }

    fn dim(&self) -> (n: usize) {
        self.tables.shape.dim
    }

    fn num_dof(&self) -> (n: usize) {
        self.tables.shape.num_dof
    }

    fn num_qpoints(&self) -> (n: usize) {
        self.tables.shape.num_qpoints
    }

    fn num_comp(&self) -> (n: usize) {
        self.tables.shape.ncomp
    }

    fn apply(
        &self,
        num_elem: usize,
        transpose: bool,
        eval_mode: EvalMode,
        u: &[T],
        v: &mut [T],
    ) -> (r: ReedResult<()>) {
        apply_nodal(&self.tables, num_elem, transpose, eval_mode, u, v)
    }

    fn q_weights(&self) -> (w: &[T]) {
        self.tables.weights.as_slice()
    }

    fn q_ref(&self) -> (x: &[T]) {
        self.tables.q_ref.as_slice()
    }

    fn face_q_weights(&self, _local_face: usize) -> (r: Option<Vec<T>>) {
        None
    }

    fn face_q_ref(&self, _local_face: usize) -> (r: Option<Vec<T>>) {
        None
    }

    fn tensor_fdm_1d_data(&self) -> (r: Option<(&[T], &[T], &[T], usize, usize)>) {
        None
    }
}

} // verus!
