//! Tensor-product Lagrange basis on segments, quadrilaterals and hexahedra.

use vstd::prelude::*;

use crate::cpu::batch::lemma_block;
#[allow(unused_imports)]
use crate::cpu::batch::block;
use crate::basis::BasisTrait;
use crate::cpu::convert::{store_all, widen_all};
#[allow(unused_imports)]
use crate::cpu::convert::{stored, unstorable, unstorable_message, widened_all};
use crate::cpu::lagrange_tables::{
    build_grad, build_interp, build_tensor_points, build_tensor_weights,
};
#[allow(unused_imports)]
use crate::cpu::lagrange_tables::{slope_table, tensor_points, tensor_weights, value_table};
use crate::cpu::nodal::{apply_nodal, Family, NodalKernel, NodalShape};
#[allow(unused_imports)]
use crate::cpu::nodal::{nodal_admits, nodal_applied, nodal_refusal};
use crate::cpu::quadrature::{gauss_lobatto_nodes, gauss_lobatto_quadrature, gauss_quadrature};
#[allow(unused_imports)]
use crate::cpu::quadrature::{
    gauss_points, gauss_weights, lobatto_message, lobatto_points, lobatto_weights,
};
use crate::cpu::tensor::{contract_axis, pick, place};
use crate::scalar::zeros;
#[allow(unused_imports)]
use crate::cpu::tensor::{axis, picked};
use crate::enums::{EvalMode, QuadMode};
use crate::error::{ErrorKind, ReedError, ReedResult};
#[allow(unused_imports)]
use crate::error::refused;
#[allow(unused_imports)]
use crate::index::{lemma_flat, lemma_mul_le, lemma_split, lemma_split3};
use crate::scalar::{Real, Scalar};
#[allow(unused_imports)]
use crate::scalar::sum;
use crate::text::Message;
#[allow(unused_imports)]
use crate::text::decimal;

verus! {

/// `b` to the power `d`, for `d` from one to three.
pub open spec fn power(b: int, d: int) -> int {
    if d <= 1 {
        b
    } else if d == 2 {
        b * b
    } else {
        b * b * b
    }
}

/// The direction that stands for no differentiation.
pub const NO_DIR: usize = 3;

/// The mathematical content of a [`LagrangeBasis`].
///
/// Nodal data of one component is numbered with the first axis running fastest; so are quadrature
/// points. The one-dimensional tables are row-major `q × p`.
pub struct LagrangeView<T> {
    pub dim: usize,
    pub ncomp: usize,
    pub p: usize,
    pub q: usize,
    pub interp: Seq<T>,
    pub grad: Seq<T>,
    pub weights_1d: Seq<T>,
    pub weights: Seq<T>,
    pub q_ref: Seq<T>,
}

impl<T: Real> LagrangeView<T> {
    /// Nodes per element.
    pub open spec fn num_dof(self) -> int {
        power(self.p as int, self.dim as int)
    }

    /// Quadrature points per element.
    pub open spec fn num_qpoints(self) -> int {
        power(self.q as int, self.dim as int)
    }

    /// The tables have the right sizes.
    pub open spec fn valid(self) -> bool {
        &&& 1 <= self.dim <= 3
        &&& 1 <= self.p
        &&& 1 <= self.q
        &&& self.num_dof() <= usize::MAX
        &&& self.num_qpoints() <= usize::MAX
        &&& self.q * self.p <= usize::MAX
        &&& self.interp.len() == self.q * self.p
        &&& self.grad.len() == self.q * self.p
        &&& self.weights_1d.len() == self.q
        &&& self.weights.len() == self.num_qpoints()
        &&& self.q_ref.len() == self.num_qpoints() * self.dim
    }

    /// Sizes.
    pub open spec fn shape(self) -> NodalShape {
        NodalShape {
            dim: self.dim,
            ncomp: self.ncomp,
            num_dof: self.num_dof() as usize,
            num_qpoints: self.num_qpoints() as usize,
        }
    }

    /// The table used along an axis when differentiating in direction `dir`; no direction is
    /// differentiated when `dir` is not an axis.
    pub open spec fn table(self, along: int, dir: int) -> Seq<T> {
        if along == dir {
            self.grad
        } else {
            self.interp
        }
    }

    /// One contraction.
    pub open spec fn stage(
        self,
        along: int,
        dir: int,
        transpose: bool,
        outer: int,
        inner: int,
        x: Seq<T>,
    ) -> Seq<T> {
        axis(
            self.table(along, dir),
            self.q as int,
            self.p as int,
            transpose,
            outer,
            inner,
            x,
        )
    }

    /// Nodal values of one component to point values: contraction along each axis in turn.
    pub open spec fn forward(self, dir: int, x: Seq<T>) -> Seq<T> {
        let (p, q) = (self.p as int, self.q as int);
        if self.dim == 1 {
            self.stage(0, dir, false, 1, 1, x)
        } else if self.dim == 2 {
            self.stage(1, dir, false, 1, q, self.stage(0, dir, false, p, 1, x))
        } else {
            self.stage(
                2,
                dir,
                false,
                1,
                q * q,
                self.stage(1, dir, false, p, q, self.stage(0, dir, false, p * p, 1, x)),
            )
        }
    }

    /// Point values of one component to nodal values: transposed contraction along each axis in
    /// reverse order.
    pub open spec fn backward(self, dir: int, x: Seq<T>) -> Seq<T> {
        let (p, q) = (self.p as int, self.q as int);
        if self.dim == 1 {
            self.stage(0, dir, true, 1, 1, x)
        } else if self.dim == 2 {
            self.stage(0, dir, true, p, 1, self.stage(1, dir, true, 1, q, x))
        } else {
            self.stage(
                0,
                dir,
                true,
                p * p,
                1,
                self.stage(1, dir, true, p, q, self.stage(2, dir, true, 1, q * q, x)),
            )
        }
    }

    /// Products of a joint transposed contraction along the second and third axis; `t` runs over
    /// the points of that plane.
    pub open spec fn plane_terms(self, x: Seq<T>, pz: int, py: int, qx: int) -> spec_fn(int) -> T {
        let (p, q) = (self.p as int, self.q as int);
        |t: int|
            self.interp[t / q * p + pz].times(self.interp[t % q * p + py]).times(x[t * q + qx])
    }

    /// Joint transposed contraction along the second and third axis.
    pub open spec fn plane(self, x: Seq<T>) -> Seq<T> {
        let (p, q) = (self.p as int, self.q as int);
        Seq::new(
            (p * p * q) as nat,
            |k: int| sum(q * q, self.plane_terms(x, k / q / p, k / q % p, k % q)),
        )
    }

    /// Transposed interpolation of one component.
    pub open spec fn interp_backward(self, x: Seq<T>) -> Seq<T> {
        let (p, q) = (self.p as int, self.q as int);
        if self.dim == 3 {
            self.stage(0, NO_DIR as int, true, p * p, 1, self.plane(x))
        } else {
            self.backward(NO_DIR as int, x)
        }
    }

    /// Transposed gradient of component `c`: the directions are added up.
    pub open spec fn grad_backward(self, u: Seq<T>, c: int) -> Seq<T> {
        let qcomp = self.ncomp * self.dim;
        let nq = self.num_qpoints();
        let part = |d: int| self.backward(d, picked(u, nq, qcomp, c * self.dim + d));
        Seq::new(
            self.num_dof() as nat,
            |i: int|
                if self.dim == 1 {
                    part(0)[i]
                } else if self.dim == 2 {
                    part(0)[i].plus(part(1)[i])
                } else {
                    T::zero_val().plus(part(0)[i]).plus(part(1)[i]).plus(part(2)[i])
                },
        )
    }

    /// Interpolation of one element.
    pub open spec fn interp_image(self, transpose: bool) -> spec_fn(Seq<T>) -> Seq<T> {
        let (nd, nq, nc) = (self.num_dof(), self.num_qpoints(), self.ncomp as int);
        if transpose {
            |u: Seq<T>|
                Seq::new(
                    (nd * nc) as nat,
                    |k: int| self.interp_backward(picked(u, nq, nc, k / nd))[k % nd],
                )
        } else {
            |u: Seq<T>|
                Seq::new((nq * nc) as nat, |k: int| self.forward(NO_DIR as int, block(u, k % nc, nd))[k / nc])
        }
    }

    /// Gradient of one element.
    pub open spec fn grad_image(self, transpose: bool) -> spec_fn(Seq<T>) -> Seq<T> {
        let (nd, nq, nc, dim) = (
            self.num_dof(),
            self.num_qpoints(),
            self.ncomp as int,
            self.dim as int,
        );
        if transpose {
            |u: Seq<T>|
                Seq::new((nd * nc) as nat, |k: int| self.grad_backward(u, k / nd)[k % nd])
        } else {
            |u: Seq<T>|
                Seq::new(
                    (nq * (nc * dim)) as nat,
                    |k: int|
                        self.forward(k % (nc * dim) % dim, block(u, k % (nc * dim) / dim, nd))[k / (
                        nc * dim)],
                )
        }
    }
}

/// Tensor-product Lagrange basis.
pub struct LagrangeBasis<T: Real> {
    dim: usize,
    ncomp: usize,
    p: usize,
    q: usize,
    num_dof: usize,
    num_qpoints: usize,
    q_ref: Vec<T>,
    weights: Vec<T>,
    weights_1d: Vec<T>,
    interp: Vec<T>,
    grad: Vec<T>,
}

impl<T: Real> View for LagrangeBasis<T> {
    type V = LagrangeView<T>;

    closed spec fn view(&self) -> LagrangeView<T> {
        LagrangeView {
            dim: self.dim,
            ncomp: self.ncomp,
            p: self.p,
            q: self.q,
            interp: self.interp@,
            grad: self.grad@,
            weights_1d: self.weights_1d@,
            weights: self.weights@,
            q_ref: self.q_ref@,
        }
    }
}

/// Mixed products of `p` and `q` are bounded by the larger cube.
pub proof fn lemma_mixed(p: int, q: int, d: int, b: int)
    requires
        1 <= p,
        1 <= q,
        1 <= d <= 3,
        power(p, d) <= b,
        power(q, d) <= b,
    ensures
        p <= b && q <= b,
        p <= power(p, d) && q <= power(q, d),
        d >= 2 ==> p * q <= b && p * p <= b && q * q <= b,
        d == 3 ==> p * p * q <= b && p * q * q <= b && p * p * p <= b && q * q * q <= b,
{
    assert(p <= p * p && q <= q * q) by (nonlinear_arith)
        requires
            1 <= p,
            1 <= q,
    ;
    assert(p * p <= p * p * p && q * q <= q * q * q) by (nonlinear_arith)
        requires
            1 <= p,
            1 <= q,
    ;
    if p <= q {
        assert(p * q <= q * q) by (nonlinear_arith)
            requires
                1 <= p <= q,
        ;
        assert(p * p <= q * q) by (nonlinear_arith)
            requires
                1 <= p <= q,
        ;
        assert(p * p * q <= q * q * q) by (nonlinear_arith)
            requires
                p * p <= q * q,
                1 <= q,
        ;
        assert(p * q * q <= q * q * q) by (nonlinear_arith)
            requires
                p * q <= q * q,
                1 <= q,
        ;
    } else {
        assert(p * q <= p * p) by (nonlinear_arith)
            requires
                1 <= q <= p,
        ;
        assert(q * q <= p * p) by (nonlinear_arith)
            requires
                1 <= q <= p,
        ;
        assert(p * p * q <= p * p * p) by (nonlinear_arith)
            requires
                1 <= q <= p,
        ;
        assert(p * q * q <= p * p * p) by (nonlinear_arith)
            requires
                p * q <= p * p,
                1 <= q <= p,
        ;
    }
}

impl<T: Real> LagrangeBasis<T> {
    /// The basis is valid.
    pub closed spec fn inv(&self) -> bool {
        &&& self@.valid()
        &&& self.num_dof == self@.num_dof()
        &&& self.num_qpoints == self@.num_qpoints()
    }

    fn table(&self, along: usize, dir: usize) -> (b: &Vec<T>)
        ensures
            b@ == self@.table(along as int, dir as int),
    {
        if along == dir {
            &self.grad
        } else {
            &self.interp
        }
    }

    /// Nodal values of one component to point values.
    fn forward(&self, dir: usize, x: &[T]) -> (r: Vec<T>)
        requires
            self.inv(),
            x@.len() == self@.num_dof(),
        ensures
            r@ == self@.forward(dir as int, x@),
            r@.len() == self@.num_qpoints(),
    {
        proof {
            lemma_mixed(self.p as int, self.q as int, self.dim as int, usize::MAX as int);
            lemma_one_axis(self.p as int, self.q as int);
        }
        let (p, q) = (self.p, self.q);
        if self.dim == 1 {
            contract_axis(self.table(0, dir), q, p, false, 1, 1, x)
        } else if self.dim == 2 {
            let a = contract_axis(self.table(0, dir), q, p, false, p, 1, x);
            contract_axis(self.table(1, dir), q, p, false, 1, q, a.as_slice())
        } else {
            let a = contract_axis(self.table(0, dir), q, p, false, p * p, 1, x);
            let b = contract_axis(self.table(1, dir), q, p, false, p, q, a.as_slice());
            contract_axis(self.table(2, dir), q, p, false, 1, q * q, b.as_slice())
        }
    }

    /// Point values of one component to nodal values.
    fn backward(&self, dir: usize, x: &[T]) -> (r: Vec<T>)
        requires
            self.inv(),
            x@.len() == self@.num_qpoints(),
        ensures
            r@ == self@.backward(dir as int, x@),
            r@.len() == self@.num_dof(),
    {
        proof {
            lemma_mixed(self.p as int, self.q as int, self.dim as int, usize::MAX as int);
            lemma_one_axis(self.p as int, self.q as int);
        }
        let (p, q) = (self.p, self.q);
        if self.dim == 1 {
            contract_axis(self.table(0, dir), q, p, true, 1, 1, x)
        } else if self.dim == 2 {
            let a = contract_axis(self.table(1, dir), q, p, true, 1, q, x);
            contract_axis(self.table(0, dir), q, p, true, p, 1, a.as_slice())
        } else {
            let a = contract_axis(self.table(2, dir), q, p, true, 1, q * q, x);
            let b = contract_axis(self.table(1, dir), q, p, true, p, q, a.as_slice());
            contract_axis(self.table(0, dir), q, p, true, p * p, 1, b.as_slice())
        }
    }

    /// Joint transposed contraction along the second and third axis.
    fn plane(&self, x: &[T]) -> (r: Vec<T>)
        requires
            self.inv(),
            self.dim == 3,
            x@.len() == self@.num_qpoints(),
        ensures
            r@ == self@.plane(x@),
            r@.len() == self.p * self.p * self.q,
    {
        proof {
            lemma_mixed(self.p as int, self.q as int, 3, usize::MAX as int);
        }
        let (p, q) = (self.p, self.q);
        let ghost goal = self@.plane(x@);
        let total: usize = p * p * q;
        let points: usize = q * q;
        let mut r: Vec<T> = Vec::new();
        for k in 0..total
            invariant
                self.inv(),
                self.dim == 3,
                p == self.p && q == self.q,
                total == p * p * q,
                points == q * q,
                points * q <= usize::MAX,
                x@.len() == points * q,
                goal == self@.plane(x@),
                r@.len() == k,
                forall|i: int| 0 <= i < k ==> #[trigger] r@[i] == goal[i],
        {
            proof {
                lemma_split3(k as int, p as int, p as int, q as int);
            }
            let qx: usize = k % q;
            let row: usize = k / q;
            let py: usize = row % p;
            let pz: usize = row / p;
            let mut s = T::zero();
            for t in 0..points
                invariant
                    self.inv(),
                    p == self.p && q == self.q,
                    points == q * q,
                    points * q <= usize::MAX,
                    x@.len() == points * q,
                    qx < q,
                    py < p,
                    pz < p,
                    s == sum(
                        t as int,
                        self@.plane_terms(x@, pz as int, py as int, qx as int),
                    ),
            {
                proof {
                    lemma_split(t as int, q as int, q as int);
                    lemma_table(self@, t as int / q as int, pz as int);
                    lemma_table(self@, t as int % q as int, py as int);
                    lemma_flat(t as int, points as int, qx as int, q as int);
                    lemma_mul_le(t as int, t as int, q as int, q as int);
                }
                let c = self.interp[t / q * p + pz].mul(self.interp[t % q * p + py]);
                s = s.add(c.mul(x[t * q + qx]));
            }
            r.push(s);
        }
        assert(r@ =~= goal);
        r
    }

    /// Transposed interpolation of one component.
    fn interp_backward(&self, x: &[T]) -> (r: Vec<T>)
        requires
            self.inv(),
            x@.len() == self@.num_qpoints(),
        ensures
            r@ == self@.interp_backward(x@),
            r@.len() == self@.num_dof(),
    {
        if self.dim == 3 {
            proof {
                lemma_mixed(self.p as int, self.q as int, 3, usize::MAX as int);
                lemma_one_axis(self.p as int, self.q as int);
            }
            let a = self.plane(x);
            contract_axis(
                self.table(0, NO_DIR),
                self.q,
                self.p,
                true,
                self.p * self.p,
                1,
                a.as_slice(),
            )
        } else {
            self.backward(NO_DIR, x)
        }
    }
}

/// Rewrites the sizes of the stages.
proof fn lemma_one_axis(p: int, q: int)
    ensures
        1 * p * 1 == p,
        1 * q * 1 == q,
        1 * p * q == p * q,
        1 * q * q == q * q,
        p * q * 1 == q * p,
        p * p * 1 == p * p,
        q * p == p * q,
        1 * p == p,
        1 * q == q,
        p * p * p * 1 == p * p * p,
        p * p * q * 1 == p * p * q,
        p * q * q == p * (q * q),
        1 * p * (q * q) == p * q * q,
        1 * q * (q * q) == q * q * q,
        p * p * q == p * (p * q),
{
    assert(p * q * 1 == q * p) by (nonlinear_arith);
    assert(q * p == p * q) by (nonlinear_arith);
    assert(p * q * q == p * (q * q)) by (nonlinear_arith);
    assert(1 * q * (q * q) == q * q * q) by (nonlinear_arith);
    assert(1 * p * (q * q) == p * q * q) by (nonlinear_arith);
    assert(p * p * q == p * (p * q)) by (nonlinear_arith);
}

/// Entries of the one-dimensional tables are in range.
proof fn lemma_table<T: Real>(view: LagrangeView<T>, i: int, j: int)
    requires
        view.valid(),
        0 <= i < view.q,
        0 <= j < view.p,
    ensures
        0 <= i * view.p,
        i * view.p + j < view.interp.len(),
{
    lemma_flat(i, view.q as int, j, view.p as int);
    lemma_mul_le(i, i, view.p as int, view.p as int);
}

impl<T: Real> NodalKernel<T> for LagrangeBasis<T> {
    open spec fn ready(&self) -> bool {
        self.inv()
    }

    open spec fn family_of(&self) -> Family {
        Family::Lagrange
    }

    open spec fn shape_of(&self) -> NodalShape {
        self@.shape()
    }

    open spec fn weight_table(&self) -> Seq<T> {
        self@.weights
    }

    open spec fn interp_image(&self, transpose: bool) -> spec_fn(Seq<T>) -> Seq<T> {
        self@.interp_image(transpose)
    }

    open spec fn grad_image(&self, transpose: bool) -> spec_fn(Seq<T>) -> Seq<T> {
        self@.grad_image(transpose)
    }

    fn family(&self) -> (f: Family) {
        Family::Lagrange
    }

    fn shape(&self) -> (s: NodalShape) {
        proof {
            lemma_mixed(self.p as int, self.q as int, self.dim as int, usize::MAX as int);
        }
        NodalShape {
            dim: self.dim,
            ncomp: self.ncomp,
            num_dof: self.num_dof,
            num_qpoints: self.num_qpoints,
        }
    }

    fn weight_slice(&self) -> (w: &[T]) {
        self.weights.as_slice()
    }

    fn interp_elem(&self, transpose: bool, u: &[T]) -> (r: Vec<T>) {
        assert(u@.len() == u.len());
        if transpose {
            self.gather_components(u, false)
        } else {
            self.spread_components(u, false)
        }
    }

    fn grad_elem(&self, transpose: bool, u: &[T]) -> (r: Vec<T>) {
        assert(u@.len() == u.len());
        if transpose {
            self.gather_components(u, true)
        } else {
            self.spread_components(u, true)
        }
    }
}

impl<T: Real> LagrangeBasis<T> {
    /// Forward application to one element: each component and direction fills its own slots of
    /// the interleaved output.
    fn spread_components(&self, u: &[T], grad: bool) -> (r: Vec<T>)
        requires
            self.inv(),
            u@.len() == self@.num_dof() * self@.ncomp,
            u@.len() <= usize::MAX,
            grad ==> self@.num_qpoints() * (self@.ncomp * self@.dim) <= usize::MAX,
            !grad ==> self@.num_qpoints() * self@.ncomp <= usize::MAX,
        ensures
            grad ==> r@ == (self@.grad_image(false))(u@),
            !grad ==> r@ == (self@.interp_image(false))(u@),
    {
        let (nd, nq, nc) = (self.num_dof, self.num_qpoints, self.ncomp);
        let dirs: usize = if grad {
            self.dim
        } else {
            1
        };
        proof {
            lemma_mixed(self.p as int, self.q as int, self.dim as int, usize::MAX as int);
            lemma_mul_le(nc as int, nc as int, 0, dirs as int);
            lemma_mul_le(1, nq as int, nc * dirs, nc * dirs);
        }
        let stride: usize = nc * dirs;
        let ghost goal = if grad {
            (self@.grad_image(false))(u@)
        } else {
            (self@.interp_image(false))(u@)
        };
        let mut out: Vec<T> = zeros(nq * stride);
        for s in 0..stride
            invariant
                self.inv(),
                nd == self@.num_dof(),
                nq == self@.num_qpoints(),
                nc == self@.ncomp,
                u@.len() == nd * nc,
                u@.len() <= usize::MAX,
                dirs == if grad {
                    self@.dim
                } else {
                    1
                },
                dirs > 0,
                stride == nc * dirs,
                out@.len() == nq * stride,
                out@.len() <= usize::MAX,
                goal == if grad {
                    (self@.grad_image(false))(u@)
                } else {
                    (self@.interp_image(false))(u@)
                },
                forall|k: int|
                    0 <= k < out@.len() && k % (stride as int) < s ==> #[trigger] out@[k] == goal[k],
        {
            proof {
                lemma_split(s as int, nc as int, dirs as int);
            }
            let comp: usize = s / dirs;
            let dir: usize = if grad {
                s % dirs
            } else {
                NO_DIR
            };
            proof {
                lemma_block(comp as int, nc as int, nd as int);
                assert(nc * nd == nd * nc) by (nonlinear_arith);
            }
            let start: usize = comp * nd;
            let r = self.forward(dir, &u[start..start + nd]);
            let ghost before = out@;
            place(&r, &mut out, stride, s);
            assert forall|k: int| 0 <= k < out@.len() && k % (stride as int) < s + 1 implies
                #[trigger] out@[k] == goal[k] by {
                if k % (stride as int) < s {
                    assert(before[k] == goal[k]);
                }
            }
        }
        assert forall|k: int| 0 <= k < out@.len() implies #[trigger] out@[k] == goal[k] by {
            lemma_split(k, nq as int, stride as int);
        }
        assert(out@ =~= goal);
        out
    }

    /// Transposed gradient of one component in one direction.
    fn direction(&self, u: &[T], comp: usize, d: usize) -> (r: Vec<T>)
        requires
            self.inv(),
            comp < self@.ncomp,
            d < self@.dim,
            u@.len() == self@.num_qpoints() * (self@.ncomp * self@.dim),
            u@.len() <= usize::MAX,
        ensures
            r@ == self@.backward(
                d as int,
                picked(
                    u@,
                    self@.num_qpoints(),
                    self@.ncomp * self@.dim,
                    comp * self@.dim + d,
                ),
            ),
            r@.len() == self@.num_dof(),
    {
        proof {
            lemma_mixed(self.p as int, self.q as int, self.dim as int, usize::MAX as int);
            lemma_flat(comp as int, self.ncomp as int, d as int, self.dim as int);
            lemma_mul_le(comp as int, comp as int, self.dim as int, self.dim as int);
            lemma_mul_le(
                1,
                self.num_qpoints as int,
                self.ncomp * self.dim,
                self.ncomp * self.dim,
            );
        }
        let x = pick(u, self.num_qpoints, self.ncomp * self.dim, comp * self.dim + d);
        self.backward(d, x.as_slice())
    }

    /// Transposed gradient of one component.
    fn grad_backward(&self, u: &[T], comp: usize) -> (r: Vec<T>)
        requires
            self.inv(),
            comp < self@.ncomp,
            u@.len() == self@.num_qpoints() * (self@.ncomp * self@.dim),
            u@.len() <= usize::MAX,
        ensures
            r@ == self@.grad_backward(u@, comp as int),
            r@.len() == self@.num_dof(),
    {
        let ghost goal = self@.grad_backward(u@, comp as int);
        let a = self.direction(u, comp, 0);
        if self.dim == 1 {
            assert(a@ =~= goal);
            return a;
        }
        let b = self.direction(u, comp, 1);
        let n: usize = self.num_dof;
        let mut r: Vec<T> = Vec::new();
        if self.dim == 2 {
            for i in 0..n
                invariant
                    a@.len() == n,
                    b@.len() == n,
                    r@.len() == i,
                    forall|k: int| 0 <= k < i ==> #[trigger] r@[k] == a@[k].plus(b@[k]),
            {
                r.push(a[i].add(b[i]));
            }
        } else {
            let c = self.direction(u, comp, 2);
            for i in 0..n
                invariant
                    a@.len() == n,
                    b@.len() == n,
                    c@.len() == n,
                    r@.len() == i,
                    forall|k: int|
                        0 <= k < i ==> #[trigger] r@[k] == T::zero_val().plus(a@[k]).plus(
                            b@[k],
                        ).plus(c@[k]),
            {
                r.push(T::zero().add(a[i]).add(b[i]).add(c[i]));
            }
        }
        assert(r@ =~= goal);
        r
    }

    /// Transposed application to one element: component after component.
    fn gather_components(&self, u: &[T], grad: bool) -> (r: Vec<T>)
        requires
            self.inv(),
            grad ==> u@.len() == self@.num_qpoints() * (self@.ncomp * self@.dim),
            !grad ==> u@.len() == self@.num_qpoints() * self@.ncomp,
            u@.len() <= usize::MAX,
            self@.num_dof() * self@.ncomp <= usize::MAX,
        ensures
            grad ==> r@ == (self@.grad_image(true))(u@),
            !grad ==> r@ == (self@.interp_image(true))(u@),
    {
        let (nd, nq, nc) = (self.num_dof, self.num_qpoints, self.ncomp);
        let ghost goal = if grad {
            (self@.grad_image(true))(u@)
        } else {
            (self@.interp_image(true))(u@)
        };
        let mut out: Vec<T> = Vec::new();
        proof {
            assert(0 * nd == 0);
            lemma_mixed(self.p as int, self.q as int, self.dim as int, usize::MAX as int);
        }
        for comp in 0..nc
            invariant
                self.inv(),
                nd == self@.num_dof(),
                nq == self@.num_qpoints(),
                nc == self@.ncomp,
                nd > 0,
                grad ==> u@.len() == nq * (nc * self@.dim),
                !grad ==> u@.len() == nq * nc,
                u@.len() <= usize::MAX,
                nd * nc <= usize::MAX,
                goal == if grad {
                    (self@.grad_image(true))(u@)
                } else {
                    (self@.interp_image(true))(u@)
                },
                out@.len() == comp * nd,
                forall|k: int| 0 <= k < out@.len() ==> #[trigger] out@[k] == goal[k],
        {
            let r = if grad {
                self.grad_backward(u, comp)
            } else {
                let x = pick(u, nq, nc, comp);
                self.interp_backward(x.as_slice())
            };
            proof {
                lemma_block(comp as int, nc as int, nd as int);
                assert(nd * nc == nc * nd) by (nonlinear_arith);
                assert forall|j: int| 0 <= j < nd implies r@[j] == #[trigger] goal[comp * nd + j] by {
                    lemma_flat(comp as int, nc as int, j, nd as int);
                }
            }
            for i in 0..nd
                invariant
                    nd > 0,
                    comp < nc,
                    r@.len() == nd,
                    comp * nd + nd <= nd * nc,
                    goal.len() == nd * nc,
                    forall|j: int| 0 <= j < nd ==> r@[j] == #[trigger] goal[comp * nd + j],
                    out@.len() == comp * nd + i,
                    forall|k: int| 0 <= k < out@.len() ==> #[trigger] out@[k] == goal[k],
            {
                assert(r@[i as int] == goal[comp * nd + i]);
                out.push(r[i]);
            }
        }
        assert(nd * nc == nc * nd) by (nonlinear_arith);
        assert(out@ =~= goal);
        out
    }
}

// ── construction ────────────────────────────────────────────────────────────

/// The one-dimensional points of a quadrature mode.
pub open spec fn rule_points<R: Real>(qmode: QuadMode, q: int) -> Seq<R> {
    match qmode {
        QuadMode::Gauss => gauss_points(q),
        QuadMode::GaussLobatto => lobatto_points(q),
    }
}

/// The one-dimensional weights of a quadrature mode.
pub open spec fn rule_weights<R: Real>(qmode: QuadMode, q: int) -> Seq<R> {
    match qmode {
        QuadMode::Gauss => gauss_weights(q),
        QuadMode::GaussLobatto => lobatto_weights(q),
    }
}

/// Interpolation table in the working type.
pub open spec fn work_values<R: Real>(p: int, q: int, qmode: QuadMode) -> Seq<R> {
    value_table(lobatto_points(p), rule_points(qmode, q))
}

/// Differentiation table in the working type; it starts from the stored interpolation table.
pub open spec fn work_slopes<T: Scalar>(p: int, q: int, qmode: QuadMode) -> Seq<T::Work> {
    slope_table(
        lobatto_points(p),
        rule_points(qmode, q),
        widened_all::<T>(stored::<T>(work_values(p, q, qmode))),
    )
}

/// The basis that the parameters describe.
pub open spec fn lagrange_view<T: Scalar>(
    dim: usize,
    ncomp: usize,
    p: usize,
    q: usize,
    qmode: QuadMode,
) -> LagrangeView<T> {
    let points = rule_points::<T::Work>(qmode, q as int);
    let weights = rule_weights::<T::Work>(qmode, q as int);
    let count = power(q as int, dim as int);
    LagrangeView {
        dim,
        ncomp,
        p,
        q,
        interp: stored::<T>(work_values(p as int, q as int, qmode)),
        grad: stored::<T>(work_slopes::<T>(p as int, q as int, qmode)),
        weights_1d: stored::<T>(weights),
        weights: stored::<T>(tensor_weights(weights, count, dim as int)),
        q_ref: stored::<T>(tensor_points(points, count, dim as int)),
    }
}

/// The first table value that cannot be stored.
pub open spec fn lagrange_unstorable<T: Scalar>(
    dim: usize,
    p: usize,
    q: usize,
    qmode: QuadMode,
) -> Option<T::Work> {
    let points = rule_points::<T::Work>(qmode, q as int);
    let weights = rule_weights::<T::Work>(qmode, q as int);
    let count = power(q as int, dim as int);
    if unstorable::<T>(weights) is Some {
        unstorable::<T>(weights)
    } else if unstorable::<T>(tensor_points(points, count, dim as int)) is Some {
        unstorable::<T>(tensor_points(points, count, dim as int))
    } else if unstorable::<T>(tensor_weights(weights, count, dim as int)) is Some {
        unstorable::<T>(tensor_weights(weights, count, dim as int))
    } else if unstorable::<T>(work_values(p as int, q as int, qmode)) is Some {
        unstorable::<T>(work_values(p as int, q as int, qmode))
    } else {
        unstorable::<T>(work_slopes::<T>(p as int, q as int, qmode))
    }
}

/// Why the parameters are refused, if they are.
pub open spec fn lagrange_refusal<T: Scalar>(
    dim: usize,
    p: usize,
    q: usize,
    qmode: QuadMode,
) -> Option<Seq<char>> {
    if !(1 <= dim <= 3) {
        Some("current CPU basis supports dim in 1..=3, got "@ + decimal(dim as nat))
    } else if p < 2 {
        Some("p must be >= 2, got "@ + decimal(p as nat))
    } else if q < 1 {
        Some("q must be >= 1, got "@ + decimal(q as nat))
    } else if qmode == QuadMode::GaussLobatto && q < 2 {
        Some(lobatto_message(q as nat))
    } else {
        match lagrange_unstorable::<T>(dim, p, q, qmode) {
            Some(w) => Some(unstorable_message("failed to convert "@, w)),
            None => None,
        }
    }
}

/// `b` to the power `d`.
fn int_power(b: usize, d: usize) -> (r: usize)
    requires
        1 <= b,
        1 <= d <= 3,
        power(b as int, d as int) <= usize::MAX,
    ensures
        r == power(b as int, d as int),
{
    proof {
        lemma_mixed(b as int, b as int, d as int, usize::MAX as int);
    }
    if d == 1 {
        b
    } else if d == 2 {
        b * b
    } else {
        b * b * b
    }
}

impl<T: Scalar> LagrangeBasis<T> {
    /// Builds the basis with `p` Gauss–Lobatto nodes and `q` quadrature points per axis.
    pub fn new(dim: usize, ncomp: usize, p: usize, q: usize, qmode: QuadMode) -> (r: ReedResult<
        Self,
    >)
        requires
            p <= i64::MAX,
            q <= i64::MAX,
            1 <= dim <= 3 && p >= 2 && q >= 1 ==> {
                &&& power(p as int, dim as int) <= usize::MAX
                &&& power(q as int, dim as int) * dim <= usize::MAX
                &&& q * p <= usize::MAX
            },
        ensures
            match lagrange_refusal::<T>(dim, p, q, qmode) {
                Some(m) => refused(r, ErrorKind::Basis, m),
                None => r matches Ok(b) && b.wf() && b@ == lagrange_view::<T>(
                    dim,
                    ncomp,
                    p,
                    q,
                    qmode,
                ),
            },
    {
        if dim < 1 || dim > 3 {
            return Err(
                ReedError::Basis(
                    Message::new("current CPU basis supports dim in 1..=3, got ").num(dim).done(),
                ),
            );
        }
        if p < 2 {
            return Err(ReedError::Basis(Message::new("p must be >= 2, got ").num(p).done()));
        }
        if q < 1 {
            return Err(ReedError::Basis(Message::new("q must be >= 1, got ").num(q).done()));
        }
        let nodes = match gauss_lobatto_nodes::<T::Work>(p) {
            Ok(v) => v,
            Err(e) => {
                return Err(e);
            },
        };
        let rule = match qmode {
            QuadMode::Gauss => gauss_quadrature::<T::Work>(q),
            QuadMode::GaussLobatto => gauss_lobatto_quadrature::<T::Work>(q),
        };
        let (points, weights) = match rule {
            Ok(t) => t,
            Err(e) => {
                return Err(e);
            },
        };
        proof {
            let count = power(q as int, dim as int);
            lemma_mul_le(count, count, 1, dim as int);
        }
        let num_dof: usize = int_power(p, dim);
        let num_qpoints: usize = int_power(q, dim);
        let head = "failed to convert ";
        let weights_1d = match store_all::<T>(&weights, head) {
            Ok(v) => v,
            Err(e) => {
                return Err(e);
            },
        };
        let q_ref = match store_all::<T>(&build_tensor_points(&points, num_qpoints, dim), head) {
            Ok(v) => v,
            Err(e) => {
                return Err(e);
            },
        };
        let tensor = build_tensor_weights(&weights, num_qpoints, dim);
        let stored_weights = match store_all::<T>(&tensor, head) {
            Ok(v) => v,
            Err(e) => {
                return Err(e);
            },
        };
        let interp = match store_all::<T>(&build_interp(&nodes, &points), head) {
            Ok(v) => v,
            Err(e) => {
                return Err(e);
            },
        };
        let values = widen_all::<T>(&interp);
        let grad = match store_all::<T>(&build_grad(&nodes, &points, &values), head) {
            Ok(v) => v,
            Err(e) => {
                return Err(e);
            },
        };
        Ok(
            LagrangeBasis {
                dim,
                ncomp,
                p,
                q,
                num_dof,
                num_qpoints,
                q_ref,
                weights: stored_weights,
                weights_1d,
                interp,
                grad,
            },
        )
    }
}

impl<T: Real> LagrangeBasis<T> {
    /// One-dimensional interpolation table, row-major `q × p`.
    pub fn interp_matrix(&self) -> (m: &[T])
        ensures
            m@ == self@.interp,
    {
        self.interp.as_slice()
    }

    /// One-dimensional differentiation table, row-major `q × p`.
    pub fn grad_matrix(&self) -> (m: &[T])
        ensures
            m@ == self@.grad,
    {
        self.grad.as_slice()
    }
}

impl<T: Real> BasisTrait<T> for LagrangeBasis<T> {
    open spec fn wf(&self) -> bool {
        self.inv() && self@.valid()
    }

    open spec fn dimension(&self) -> int {
        self@.dim as int
    }

    open spec fn dofs(&self) -> int {
        self@.num_dof()
    }

    open spec fn qpoints(&self) -> int {
        self@.num_qpoints()
    }

    open spec fn comps(&self) -> int {
        self@.ncomp as int
    }

    open spec fn weight_values(&self) -> Seq<T> {
        self@.weights
    }

    open spec fn point_values(&self) -> Seq<T> {
        self@.q_ref
    }

    open spec fn admits(
        &self,
        num_elem: int,
        transpose: bool,
        eval_mode: EvalMode,
        ulen: nat,
        vlen: nat,
    ) -> bool {
        nodal_admits(Family::Lagrange, self@.shape(), num_elem, transpose, eval_mode, ulen, vlen)
    }

    open spec fn refusal(
        &self,
        num_elem: int,
        transpose: bool,
        eval_mode: EvalMode,
        ulen: nat,
        vlen: nat,
    ) -> Option<(ErrorKind, Seq<char>)> {
        nodal_refusal(Family::Lagrange, self@.shape(), num_elem, transpose, eval_mode, ulen, vlen)
    }

    open spec fn applied(
        &self,
        num_elem: int,
        transpose: bool,
        eval_mode: EvalMode,
        u: Seq<T>,
        v: Seq<T>,
    ) -> Seq<T> {
        nodal_applied(self, num_elem, transpose, eval_mode, u, v)
    }

    open spec fn tensor_tables(&self) -> Option<(Seq<T>, Seq<T>, Seq<T>, int, int)> {
        Some(
            (self@.interp, self@.grad, self@.weights_1d, self@.p as int, self@.q as int),
        )
    }

    open spec fn face_weight_values(&self, local_face: int) -> Option<Seq<T>> {
        None
    }

    open spec fn face_point_values(&self, local_face: int) -> Option<Seq<T>> {
        None
    }

    fn dim(&self) -> (n: usize) {
        self.dim
    }

    fn num_dof(&self) -> (n: usize) {
        self.num_dof
    }

    fn num_qpoints(&self) -> (n: usize) {
        self.num_qpoints
    }

    fn num_comp(&self) -> (n: usize) {
        self.ncomp
    }

    fn apply(
        &self,
        num_elem: usize,
        transpose: bool,
        eval_mode: EvalMode,
        u: &[T],
        v: &mut [T],
    ) -> (r: ReedResult<()>) {
        apply_nodal(self, num_elem, transpose, eval_mode, u, v)
    }

    fn q_weights(&self) -> (w: &[T]) {
        self.weights.as_slice()
    }

    fn q_ref(&self) -> (x: &[T]) {
        self.q_ref.as_slice()
    }

    fn face_q_weights(&self, _local_face: usize) -> (r: Option<Vec<T>>) {
        None
    }

    fn face_q_ref(&self, _local_face: usize) -> (r: Option<Vec<T>>) {
        None
    }

    fn tensor_fdm_1d_data(&self) -> (r: Option<(&[T], &[T], &[T], usize, usize)>) {
        Some(
            (
                self.interp.as_slice(),
                self.grad.as_slice(),
                self.weights_1d.as_slice(),
                self.p,
                self.q,
            ),
        )
    }
}

} // verus!
