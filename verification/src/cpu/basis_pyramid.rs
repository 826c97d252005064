//! Nodal (H1) basis on the pyramid: a hexahedron with one face collapsed to the apex.
//!
//! The map `r = ξ(1 − ζ)/2`, `s = η(1 − ζ)/2`, `t = ζ` takes the hexahedron `[-1, 1]³` to the
//! pyramid. Its Jacobian determinant `((1 − ζ)/2)²` vanishes at the apex.

use vstd::prelude::*;

use crate::basis::BasisTrait;
use crate::cpu::basis_lagrange::LagrangeBasis;
#[allow(unused_imports)]
use crate::cpu::basis_lagrange::{
    lagrange_refusal, lagrange_view, lemma_mixed, power, LagrangeView,
};
use crate::cpu::convert::unstorable_error;
#[allow(unused_imports)]
use crate::cpu::convert::{unstorable, unstorable_from, unstorable_message};
use crate::cpu::dense::DenseTables;
#[allow(unused_imports)]
use crate::cpu::dense::DenseView;
use crate::cpu::nodal::{apply_nodal, Family, NodalShape};
#[allow(unused_imports)]
use crate::cpu::nodal::{nodal_admits, nodal_refusal};
use crate::enums::{EvalMode, QuadMode};
use crate::error::{ErrorKind, ReedError, ReedResult};
#[allow(unused_imports)]
use crate::error::refused;
#[allow(unused_imports)]
use crate::index::{lemma_flat, lemma_mul_le, lemma_split, lemma_split3};
use crate::scalar::ratio;
#[allow(unused_imports)]
use crate::scalar::{ratio_val, Real, Scalar};
use crate::text::Message;
#[allow(unused_imports)]
use crate::text::decimal;

verus! {

// ── collapsed coordinates ───────────────────────────────────────────────────

/// Working coordinate `d` of point `i` of the hexahedron.
pub open spec fn hex_coordinate<T: Scalar>(hex: LagrangeView<T>, i: int, d: int) -> T::Work {
    hex.q_ref[i * 3 + d].widened()
}

/// `1 − ζ` at point `i`.
pub open spec fn depth<T: Scalar>(hex: LagrangeView<T>, i: int) -> T::Work {
    <T::Work as Real>::one_val().minus(hex_coordinate(hex, i, 2))
}

/// `(1 − ζ)/2` at point `i`.
pub open spec fn half_depth<T: Scalar>(hex: LagrangeView<T>, i: int) -> T::Work {
    ratio_val::<T::Work>(1, 2).times(depth(hex, i))
}

/// Jacobian determinant at point `i`.
pub open spec fn jacobian<T: Scalar>(hex: LagrangeView<T>, i: int) -> T::Work {
    half_depth(hex, i).times(half_depth(hex, i))
}

/// What is stored for point `i`: the coordinates in the pyramid, the weight, and the entries
/// `2/(1 − ζ)` (twice), `ξ/(1 − ζ)`, `η/(1 − ζ)` of the inverse transposed Jacobian.
pub open spec fn point_data<T: Scalar>(hex: LagrangeView<T>, i: int) -> Seq<T::Work> {
    let (xi, eta, zeta) = (
        hex_coordinate(hex, i, 0),
        hex_coordinate(hex, i, 1),
        hex_coordinate(hex, i, 2),
    );
    let stretch = <T::Work as Real>::int_val(2).over(depth(hex, i));
    seq![
        xi.times(half_depth(hex, i)),
        eta.times(half_depth(hex, i)),
        zeta,
        hex.weights[i].widened().times(jacobian(hex, i)),
        stretch,
        stretch,
        xi.over(depth(hex, i)),
        eta.over(depth(hex, i)),
    ]
}

/// What is wrong with point `i`, if anything: it collapses, or a value cannot be stored.
pub open spec fn point_fault<T: Scalar>(hex: LagrangeView<T>, i: int) -> Option<Seq<char>> {
    if jacobian(hex, i).at_most(<T::Work as Real>::zero_val()) {
        Some(
            "PyramidBasis: singular Jacobian at qpt "@ + decimal(i as nat) + " (ξ="@
                + hex_coordinate(hex, i, 0).text() + ", η="@ + hex_coordinate(hex, i, 1).text()
                + ", ζ="@ + hex_coordinate(hex, i, 2).text()
                + "). Use Gauss quadrature to avoid apex point ζ=1."@,
        )
    } else {
        match unstorable::<T>(point_data(hex, i)) {
            Some(w) => Some(unstorable_message("failed to convert "@, w)),
            None => None,
        }
    }
}

/// The first fault at or after point `i`.
pub open spec fn point_fault_from<T: Scalar>(hex: LagrangeView<T>, i: int) -> Option<Seq<char>>
    decreases hex.weights.len() - i,
{
    if i >= hex.weights.len() {
        None
    } else if point_fault(hex, i) is Some {
        point_fault(hex, i)
    } else {
        point_fault_from(hex, i + 1)
    }
}

/// Stored value `j` of point `i`.
pub open spec fn point_value<T: Scalar>(hex: LagrangeView<T>, i: int, j: int) -> T {
    T::narrowed(point_data(hex, i)[j])->0
}

// ── tables ──────────────────────────────────────────────────────────────────

/// The tables used along the three axes when differentiating in direction `dir`.
pub open spec fn axis_table<T: Real>(hex: LagrangeView<T>, along: int, dir: int) -> Seq<T> {
    hex.table(along, dir)
}

/// Entry along one axis: digit `qd` of the point, digit `pd` of the node.
pub open spec fn axis_entry<T: Real>(hex: LagrangeView<T>, along: int, dir: int, qd: int, pd: int) -> T {
    axis_table(hex, along, dir)[qd * hex.p + pd]
}

/// Shape function `dof` of the hexahedron at point `qpt`, or its derivative in direction `dir`.
pub open spec fn hex_shape<T: Real>(hex: LagrangeView<T>, qpt: int, dof: int, dir: int) -> T {
    let (p, q) = (hex.p as int, hex.q as int);
    axis_entry(hex, 0, dir, qpt % q, dof % p).times(
        axis_entry(hex, 1, dir, qpt / q % q, dof / p % p),
    ).times(axis_entry(hex, 2, dir, qpt / q / q, dof / p / p))
}

/// Derivative of shape function `dof` in pyramid direction `d` at point `qpt`.
pub open spec fn pyramid_slope<T: Scalar>(hex: LagrangeView<T>, qpt: int, dof: int, d: int) -> T {
    let (gx, gy, gz) = (
        hex_shape(hex, qpt, dof, 0),
        hex_shape(hex, qpt, dof, 1),
        hex_shape(hex, qpt, dof, 2),
    );
    if d == 0 {
        point_value(hex, qpt, 4).times(gx)
    } else if d == 1 {
        point_value(hex, qpt, 5).times(gy)
    } else {
        point_value(hex, qpt, 6).times(gx).plus(point_value(hex, qpt, 7).times(gy)).plus(gz)
    }
}

/// The basis that the parameters describe.
pub open spec fn pyramid_view<T: Scalar>(p: usize, q: usize, qmode: QuadMode, ncomp: usize) -> DenseView<
    T,
> {
    let hex = lagrange_view::<T>(3, 1, p, q, qmode);
    let (nd, nq) = (hex.num_dof(), hex.num_qpoints());
    DenseView {
        family: Family::Pyramid,
        shape: NodalShape { dim: 3, ncomp, num_dof: nd as usize, num_qpoints: nq as usize },
        q_ref: Seq::new((nq * 3) as nat, |k: int| point_value(hex, k / 3, k % 3)),
        weights: Seq::new(nq as nat, |i: int| point_value(hex, i, 3)),
        interp: Seq::new((nq * nd) as nat, |k: int| hex_shape(hex, k / nd, k % nd, 3)),
        grad: Seq::new(
            (nq * nd * 3) as nat,
            |k: int| pyramid_slope(hex, k / 3 / nd, k / 3 % nd, k % 3),
        ),
    }
}

/// Why the parameters are refused, if they are.
pub open spec fn pyramid_refusal<T: Scalar>(p: usize, q: usize, qmode: QuadMode) -> Option<
    Seq<char>,
> {
    if lagrange_refusal::<T>(3, p, q, qmode) is Some {
        lagrange_refusal::<T>(3, p, q, qmode)
    } else {
        point_fault_from(lagrange_view::<T>(3, 1, p, q, qmode), 0)
    }
}

/// Nodal basis on the pyramid.
pub struct PyramidBasis<T: Real> {
    tables: DenseTables<T>,
}

impl<T: Real> View for PyramidBasis<T> {
    type V = DenseView<T>;

    closed spec fn view(&self) -> DenseView<T> {
        self.tables@
    }
}

impl<T: Real> PyramidBasis<T> {
    /// The basis is valid.
    pub closed spec fn inv(&self) -> bool {
        self.tables@.valid()
    }
}

/// Maps point `i` to the pyramid and stores its data.
fn map_point<T: Scalar>(hex: &LagrangeBasis<T>, i: usize) -> (r: ReedResult<Vec<T>>)
    requires
        hex.wf(),
        hex@.dim == 3,
        i < hex@.num_qpoints(),
    ensures
        match point_fault(hex@, i as int) {
            Some(m) => refused(r, ErrorKind::Basis, m),
            None => r matches Ok(v) && v@.len() == 8 && forall|j: int|
                0 <= j < 8 ==> #[trigger] v@[j] == point_value(hex@, i as int, j),
        },
{
    let coords = hex.q_ref();
    let weights = hex.q_weights();
    assert(coords@.len() == coords.len());
    let xi = coords[i * 3].to_work();
    let eta = coords[i * 3 + 1].to_work();
    let zeta = coords[i * 3 + 2].to_work();
    let w = weights[i].to_work();
    let depth_i = <T::Work as Real>::one().sub(zeta);
    let half = ratio::<T::Work>(1, 2).mul(depth_i);
    let det = half.mul(half);
    if det.le(<T::Work as Real>::zero()) {
        let (tx, ty, tz) = (xi.to_text(), eta.to_text(), zeta.to_text());
        return Err(
            ReedError::Basis(
                Message::new("PyramidBasis: singular Jacobian at qpt ").num(i).text(" (ξ=").text(
                    tx.as_str(),
                ).text(", η=").text(ty.as_str()).text(", ζ=").text(tz.as_str()).text(
                    "). Use Gauss quadrature to avoid apex point ζ=1.",
                ).done(),
            ),
        );
    }
    let stretch = <T::Work as Real>::from_int(2).div(depth_i);
    let data = vec![
        xi.mul(half),
        eta.mul(half),
        zeta,
        w.mul(det),
        stretch,
        stretch,
        xi.div(depth_i),
        eta.div(depth_i),
    ];
    assert(data@ =~= point_data(hex@, i as int));
    let mut out: Vec<T> = Vec::new();
    for j in 0..8usize
        invariant
            data@ == point_data(hex@, i as int),
            !jacobian(hex@, i as int).at_most(<T::Work as Real>::zero_val()),
            unstorable::<T>(data@) == unstorable_from::<T>(data@, j as int),
            out@.len() == j,
            forall|k: int| 0 <= k < j ==> #[trigger] out@[k] == point_value(hex@, i as int, k),
    {
        match T::from_work(data[j]) {
            Some(x) => {
                out.push(x);
            },
            None => {
                return Err(unstorable_error("failed to convert ", data[j]));
            },
        }
    }
    Ok(out)
}

/// Digits of points and nodes give table positions in range.
proof fn lemma_digits<T: Real>(hex: LagrangeView<T>, qpt: int, dof: int)
    requires
        hex.valid(),
        hex.dim == 3,
        0 <= qpt < hex.num_qpoints(),
        0 <= dof < hex.num_dof(),
    ensures
        ({
            let (p, q) = (hex.p as int, hex.q as int);
            &&& 0 <= qpt % q * p + dof % p < q * p
            &&& 0 <= qpt / q % q * p + dof / p % p < q * p
            &&& 0 <= qpt / q / q * p + dof / p / p < q * p
            &&& 0 <= qpt % q * p
            &&& 0 <= qpt / q % q * p
            &&& 0 <= qpt / q / q * p
        }),
{
    let (p, q) = (hex.p as int, hex.q as int);
    lemma_split(qpt, q * q, q);
    lemma_split(qpt / q, q, q);
    lemma_split(dof, p * p, p);
    lemma_split(dof / p, p, p);
    lemma_flat(qpt % q, q, dof % p, p);
    lemma_flat(qpt / q % q, q, dof / p % p, p);
    lemma_flat(qpt / q / q, q, dof / p / p, p);
    lemma_mul_le(qpt % q, qpt % q, p, p);
    lemma_mul_le(qpt / q % q, qpt / q % q, p, p);
    lemma_mul_le(qpt / q / q, qpt / q / q, p, p);
}

fn compute_hex_shape<T: Real>(
    interp: &[T],
    grad: &[T],
    p: usize,
    q: usize,
    qpt: usize,
    dof: usize,
    dir: usize,
    hex: &LagrangeBasis<T>,
) -> (r: T)
    requires
        hex.wf(),
        hex@.dim == 3,
        interp@ == hex@.interp,
        grad@ == hex@.grad,
        p == hex@.p,
        q == hex@.q,
        qpt < hex@.num_qpoints(),
        dof < hex@.num_dof(),
    ensures
        r == hex_shape(hex@, qpt as int, dof as int, dir as int),
{
    proof {
        lemma_digits(hex@, qpt as int, dof as int);
    }
    let ix: usize = qpt % q * p + dof % p;
    let iy: usize = qpt / q % q * p + dof / p % p;
    let iz: usize = qpt / q / q * p + dof / p / p;
    let a = if dir == 0 {
        grad[ix]
    } else {
        interp[ix]
    };
    let b = if dir == 1 {
        grad[iy]
    } else {
        interp[iy]
    };
    let c = if dir == 2 {
        grad[iz]
    } else {
        interp[iz]
    };
    a.mul(b).mul(c)
}

impl<T: Scalar> PyramidBasis<T> {
    /// Builds the basis from the hexahedral basis with `p` nodes and `q` quadrature points per
    /// axis. Gauss–Lobatto points include the apex and are refused.
    pub fn new(p: usize, q: usize, qmode: QuadMode, ncomp: usize) -> (r: ReedResult<Self>)
        requires
            p <= i64::MAX,
            q <= i64::MAX,
            p >= 2 && q >= 1 ==> {
                &&& power(p as int, 3) <= usize::MAX
                &&& power(q as int, 3) * 3 <= usize::MAX
                &&& q * p <= usize::MAX
                &&& power(q as int, 3) * power(p as int, 3) * 3 <= usize::MAX
            },
        ensures
            match pyramid_refusal::<T>(p, q, qmode) {
                Some(m) => refused(r, ErrorKind::Basis, m),
                None => r matches Ok(b) && b.wf() && b@ == pyramid_view::<T>(p, q, qmode, ncomp),
            },
    {
        let hex = match LagrangeBasis::<T>::new(3, 1, p, q, qmode) {
            Ok(b) => b,
            Err(e) => {
                return Err(e);
            },
        };
        let ghost view = hex@;
        let nd: usize = hex.num_dof();
        let nq: usize = hex.num_qpoints();
        proof {
            lemma_mixed(p as int, q as int, 3, usize::MAX as int);
            lemma_mul_le(nq as int, nq as int, nd as int, nd as int);
            lemma_mul_le(nq * nd, nq * nd, 1, 3);
        }
        let mut q_ref: Vec<T> = Vec::new();
        let mut weights: Vec<T> = Vec::new();
        let mut jacobians: Vec<Vec<T>> = Vec::new();
        for i in 0..nq
            invariant
                hex.wf(),
                view == hex@,
                view.dim == 3,
                nq == view.num_qpoints(),
                point_fault_from(view, 0) == point_fault_from(view, i as int),
                pyramid_refusal::<T>(p, q, qmode) == point_fault_from(view, 0),
                q_ref@.len() == 3 * i,
                weights@.len() == i,
                jacobians@.len() == i,
                forall|k: int|
                    0 <= k < 3 * i ==> #[trigger] q_ref@[k] == point_value(view, k / 3, k % 3),
                forall|k: int| 0 <= k < i ==> #[trigger] weights@[k] == point_value(view, k, 3),
                forall|k: int| 0 <= k < i ==> (#[trigger] jacobians@[k])@.len() == 8,
                forall|k: int, j: int|
                    0 <= k < i && 0 <= j < 8 ==> #[trigger] jacobians@[k]@[j] == point_value(
                        view,
                        k,
                        j,
                    ),
        {
            match map_point(&hex, i) {
                Ok(data) => {
                    assert(data@[0] == point_value(view, i as int, 0));
                    assert(data@[1] == point_value(view, i as int, 1));
                    assert(data@[2] == point_value(view, i as int, 2));
                    assert(data@[3] == point_value(view, i as int, 3));
                    q_ref.push(data[0]);
                    q_ref.push(data[1]);
                    q_ref.push(data[2]);
                    weights.push(data[3]);
                    jacobians.push(data);
                },
                Err(e) => {
                    return Err(e);
                },
            }
        }
        let itab = hex.interp_matrix();
        let gtab = hex.grad_matrix();
        let mut interp: Vec<T> = Vec::new();
        for k in 0..nq * nd
            invariant
                hex.wf(),
                view == hex@,
                view.dim == 3,
                nq == view.num_qpoints(),
                nd == view.num_dof(),
                nq * nd <= usize::MAX,
                p == view.p,
                q == view.q,
                itab@ == view.interp,
                gtab@ == view.grad,
                interp@.len() == k,
                forall|i: int|
                    0 <= i < k ==> #[trigger] interp@[i] == hex_shape(
                        view,
                        i / (nd as int),
                        i % (nd as int),
                        3,
                    ),
        {
            proof {
                lemma_split(k as int, nq as int, nd as int);
            }
            interp.push(compute_hex_shape(itab, gtab, p, q, k / nd, k % nd, 3, &hex));
        }
        let mut grad: Vec<T> = Vec::new();
        for k in 0..nq * nd * 3
            invariant
                hex.wf(),
                view == hex@,
                view.dim == 3,
                nq == view.num_qpoints(),
                nd == view.num_dof(),
                nq * nd * 3 <= usize::MAX,
                p == view.p,
                q == view.q,
                itab@ == view.interp,
                gtab@ == view.grad,
                jacobians@.len() == nq,
                forall|i: int| 0 <= i < nq ==> (#[trigger] jacobians@[i])@.len() == 8,
                forall|i: int, j: int|
                    0 <= i < nq && 0 <= j < 8 ==> #[trigger] jacobians@[i]@[j] == point_value(
                        view,
                        i,
                        j,
                    ),
                grad@.len() == k,
                forall|i: int|
                    0 <= i < k ==> #[trigger] grad@[i] == pyramid_slope(
                        view,
                        i / 3 / (nd as int),
                        i / 3 % (nd as int),
                        i % 3,
                    ),
        {
            proof {
                lemma_split3(k as int, nq as int, nd as int, 3);
            }
            let d: usize = k % 3;
            let qpt: usize = k / 3 / nd;
            let dof: usize = k / 3 % nd;
            let data = &jacobians[qpt];
            let gx = compute_hex_shape(itab, gtab, p, q, qpt, dof, 0, &hex);
            let gy = compute_hex_shape(itab, gtab, p, q, qpt, dof, 1, &hex);
            let gz = compute_hex_shape(itab, gtab, p, q, qpt, dof, 2, &hex);
            let g = if d == 0 {
                data[4].mul(gx)
            } else if d == 1 {
                data[5].mul(gy)
            } else {
                data[6].mul(gx).add(data[7].mul(gy)).add(gz)
            };
            grad.push(g);
        }
        let shape = NodalShape { dim: 3, ncomp, num_dof: nd, num_qpoints: nq };
        let tables = DenseTables { family: Family::Pyramid, shape, q_ref, weights, interp, grad };
        proof {
            let goal = pyramid_view::<T>(p, q, qmode, ncomp);
            assert(tables.q_ref@ =~= goal.q_ref);
            assert(tables.weights@ =~= goal.weights);
            assert(tables.interp@ =~= goal.interp);
            assert(tables.grad@ =~= goal.grad);
            assert(tables@.valid());
        }
        Ok(PyramidBasis { tables })
    }
}

impl<T: Real> BasisTrait<T> for PyramidBasis<T> {
    open spec fn wf(&self) -> bool {
        self.inv() && self@.valid()
    }

    open spec fn dimension(&self) -> int {
        self@.shape.dim as int
    }

    open spec fn dofs(&self) -> int {
        self@.shape.num_dof as int
    }

    open spec fn qpoints(&self) -> int {
        self@.shape.num_qpoints as int
    }

    open spec fn comps(&self) -> int {
        self@.shape.ncomp as int
    }

    open spec fn weight_values(&self) -> Seq<T> {
        self@.weights
    }

    open spec fn point_values(&self) -> Seq<T> {
        self@.q_ref
    }

    open spec fn admits(
        &self,
        num_elem: int,
        transpose: bool,
        eval_mode: EvalMode,
        ulen: nat,
        vlen: nat,
    ) -> bool {
        nodal_admits(
            self@.family,
            self@.shape,
            num_elem,
            transpose,
            eval_mode,
            ulen,
            vlen,
        )
    }

    open spec fn refusal(
        &self,
        num_elem: int,
        transpose: bool,
        eval_mode: EvalMode,
        ulen: nat,
        vlen: nat,
    ) -> Option<(ErrorKind, Seq<char>)> {
        nodal_refusal(
            self@.family,
            self@.shape,
            num_elem,
            transpose,
            eval_mode,
            ulen,
            vlen,
        )
    }

    open spec fn applied(
        &self,
        num_elem: int,
        transpose: bool,
        eval_mode: EvalMode,
        u: Seq<T>,
        v: Seq<T>,
    ) -> Seq<T> {
        self@.applied(num_elem, transpose, eval_mode, u, v)
    }

    open spec fn tensor_tables(&self) -> Option<(Seq<T>, Seq<T>, Seq<T>, int, int)> {
        None
    }

    open spec fn face_weight_values(&self, local_face: int) -> Option<Seq<T>> {
        None
    }

    open spec fn face_point_values(&self, local_face: int) -> Option<Seq<T>> {
        None
    }

    fn dim(&self) -> (n: usize) {
        self.tables.shape.dim
    }

    fn num_dof(&self) -> (n: usize) {
        self.tables.shape.num_dof
    }

    fn num_qpoints(&self) -> (n: usize) {
        self.tables.shape.num_qpoints
    }

    fn num_comp(&self) -> (n: usize) {
        self.tables.shape.ncomp
    }

    fn apply(
        &self,
        num_elem: usize,
        transpose: bool,
        eval_mode: EvalMode,
        u: &[T],
        v: &mut [T],
    ) -> (r: ReedResult<()>) {
        apply_nodal(&self.tables, num_elem, transpose, eval_mode, u, v)
    }

    fn q_weights(&self) -> (w: &[T]) {
        self.tables.weights.as_slice()
    }

    fn q_ref(&self) -> (x: &[T]) {
        self.tables.q_ref.as_slice()
    }

    fn face_q_weights(&self, _local_face: usize) -> (r: Option<Vec<T>>) {
        None
    }

    fn face_q_ref(&self, _local_face: usize) -> (r: Option<Vec<T>>) {
        None
    }

    fn tensor_fdm_1d_data(&self) -> (r: Option<(&[T], &[T], &[T], usize, usize)>) {
        None
    }
}

} // verus!
