//! Nodal bases given by full tables of values and gradients at the quadrature points.

use vstd::prelude::*;

use crate::cpu::nodal::{Family, NodalKernel, NodalShape};
#[allow(unused_imports)]
use crate::cpu::nodal::{effective_mode, nodal_applied_of, nodal_image_of};
#[allow(unused_imports)]
use crate::enums::EvalMode;
#[allow(unused_imports)]
use crate::index::{lemma_flat, lemma_flat3, lemma_mul_le, lemma_split};
use crate::scalar::Real;
#[allow(unused_imports)]
use crate::scalar::sum;

verus! {

/// The mathematical content of [`DenseTables`].
///
/// `interp` is row-major points × nodes, `grad` is row-major points × nodes × directions.
pub struct DenseView<T> {
    pub family: Family,
    pub shape: NodalShape,
    pub q_ref: Seq<T>,
    pub weights: Seq<T>,
    pub interp: Seq<T>,
    pub grad: Seq<T>,
}

impl<T: Real> DenseView<T> {
    /// The tables have the right sizes.
    pub open spec fn valid(self) -> bool {
        let s = self.shape;
        &&& 1 <= s.dim <= 3
        &&& 1 <= s.num_dof
        &&& s.num_qpoints * s.num_dof <= usize::MAX
        &&& s.num_qpoints * s.num_dof * s.dim <= usize::MAX
        &&& self.weights.len() == s.num_qpoints
        &&& self.q_ref.len() == s.num_qpoints * s.dim
        &&& self.interp.len() == s.num_qpoints * s.num_dof
        &&& self.grad.len() == s.num_qpoints * s.num_dof * s.dim
    }

    /// Products of an interpolated value.
    pub open spec fn interp_terms(self, u: Seq<T>, qpt: int, comp: int) -> spec_fn(int) -> T {
        let nd = self.shape.num_dof as int;
        |dof: int| self.interp[qpt * nd + dof].times(u[comp * nd + dof])
    }

    /// Products of a transposed interpolation.
    pub open spec fn interp_back_terms(self, u: Seq<T>, dof: int, comp: int) -> spec_fn(int) -> T {
        let (nd, nc) = (self.shape.num_dof as int, self.shape.ncomp as int);
        |qpt: int| self.interp[qpt * nd + dof].times(u[qpt * nc + comp])
    }

    /// Products of a derivative.
    pub open spec fn grad_terms(self, u: Seq<T>, qpt: int, comp: int, d: int) -> spec_fn(int) -> T {
        let (nd, dim) = (self.shape.num_dof as int, self.shape.dim as int);
        |dof: int| self.grad[(qpt * nd + dof) * dim + d].times(u[comp * nd + dof])
    }

    /// Products of a transposed gradient; `t` runs over points and directions.
    pub open spec fn grad_back_terms(self, u: Seq<T>, dof: int, comp: int) -> spec_fn(int) -> T {
        let (nd, dim) = (self.shape.num_dof as int, self.shape.dim as int);
        let qcomp = self.shape.qcomp();
        |t: int|
            self.grad[(t / dim * nd + dof) * dim + t % dim].times(
                u[t / dim * qcomp + (comp * dim + t % dim)],
            )
    }

    /// Interpolation of one element.
    pub open spec fn interp_image(self, transpose: bool) -> spec_fn(Seq<T>) -> Seq<T> {
        let s = self.shape;
        let (nd, nq, nc) = (s.num_dof as int, s.num_qpoints as int, s.ncomp as int);
        if transpose {
            |u: Seq<T>|
                Seq::new(
                    (nd * nc) as nat,
                    |k: int|
                        T::zero_val().plus(sum(nq, self.interp_back_terms(u, k % nd, k / nd))),
                )
        } else {
            |u: Seq<T>|
                Seq::new((nq * nc) as nat, |k: int| sum(nd, self.interp_terms(u, k / nc, k % nc)))
        }
    }

    /// Gradient of one element.
    pub open spec fn grad_image(self, transpose: bool) -> spec_fn(Seq<T>) -> Seq<T> {
        let s = self.shape;
        let (nd, nq, nc, dim) = (
            s.num_dof as int,
            s.num_qpoints as int,
            s.ncomp as int,
            s.dim as int,
        );
        let qc = s.qcomp();
        if transpose {
            |u: Seq<T>|
                Seq::new(
                    (nd * nc) as nat,
                    |k: int|
                        T::zero_val().plus(sum(nq * dim, self.grad_back_terms(u, k % nd, k / nd))),
                )
        } else {
            |u: Seq<T>|
                Seq::new(
                    (nq * qc) as nat,
                    |k: int| sum(nd, self.grad_terms(u, k / qc, k % qc / dim, k % qc % dim)),
                )
        }
    }
}

/// A nodal basis by its tables.
pub struct DenseTables<T: Real> {
    pub family: Family,
    pub shape: NodalShape,
    pub q_ref: Vec<T>,
    pub weights: Vec<T>,
    pub interp: Vec<T>,
    pub grad: Vec<T>,
}

impl<T: Real> View for DenseTables<T> {
    type V = DenseView<T>;

    open spec fn view(&self) -> DenseView<T> {
        DenseView {
            family: self.family,
            shape: self.shape,
            q_ref: self.q_ref@,
            weights: self.weights@,
            interp: self.interp@,
            grad: self.grad@,
        }
    }
}

/// Entries of the tables are in range.
proof fn lemma_entry<T: Real>(view: DenseView<T>, qpt: int, dof: int, d: int)
    requires
        view.valid(),
        0 <= qpt < view.shape.num_qpoints,
        0 <= dof < view.shape.num_dof,
        0 <= d < view.shape.dim,
    ensures
        0 <= qpt * view.shape.num_dof,
        0 <= qpt * view.shape.num_dof + dof < view.interp.len(),
        0 <= (qpt * view.shape.num_dof + dof) * view.shape.dim,
        (qpt * view.shape.num_dof + dof) * view.shape.dim + d < view.grad.len(),
{
    let (nq, nd, dim) = (
        view.shape.num_qpoints as int,
        view.shape.num_dof as int,
        view.shape.dim as int,
    );
    lemma_flat3(qpt, nq, dof, nd, d, dim);
    lemma_mul_le(qpt, qpt, nd, nd);
    lemma_mul_le(qpt * nd + dof, qpt * nd + dof, dim, dim);
}

impl<T: Real> DenseTables<T> {
    /// Value of one shape function at one quadrature point.
    pub fn interp_val(&self, qpt: usize, dof: usize) -> (w: T)
        requires
            self@.valid(),
            qpt < self@.shape.num_qpoints,
            dof < self@.shape.num_dof,
        ensures
            w == self@.interp[qpt * self@.shape.num_dof + dof],
    {
        proof {
            lemma_flat(qpt as int, self.shape.num_qpoints as int, dof as int, self.shape.num_dof as int);
        }
        self.interp[qpt * self.shape.num_dof + dof]
    }

    fn interp_forward(&self, u: &[T]) -> (r: Vec<T>)
        requires
            self@.valid(),
            u@.len() == self@.shape.nodal_len(),
            self@.shape.point_len(EvalMode::Interp) <= usize::MAX,
        ensures
            r@ == (self@.interp_image(false))(u@),
    {
        assert(u@.len() == u.len());
        let (nd, nq, nc) = (self.shape.num_dof, self.shape.num_qpoints, self.shape.ncomp);
        let ghost goal = (self@.interp_image(false))(u@);
        let mut r: Vec<T> = Vec::new();
        for k in 0..nq * nc
            invariant
                self@.valid(),
                nd == self@.shape.num_dof && nq == self@.shape.num_qpoints && nc
                    == self@.shape.ncomp,
                u@.len() == nd * nc,
                nd * nc <= usize::MAX,
                nq * nc <= usize::MAX,
                goal == (self@.interp_image(false))(u@),
                r@.len() == k,
                forall|i: int| 0 <= i < k ==> #[trigger] r@[i] == goal[i],
        {
            proof {
                lemma_split(k as int, nq as int, nc as int);
            }
            let qpt: usize = k / nc;
            let comp: usize = k % nc;
            let mut s = T::zero();
            for dof in 0..nd
                invariant
                    self@.valid(),
                    nd == self@.shape.num_dof && nq == self@.shape.num_qpoints && nc
                        == self@.shape.ncomp,
                    u@.len() == nd * nc,
                    nd * nc <= usize::MAX,
                    qpt < nq,
                    comp < nc,
                    s == sum(dof as int, self@.interp_terms(u@, qpt as int, comp as int)),
            {
                proof {
                    lemma_entry(self@, qpt as int, dof as int, 0);
                    lemma_flat(comp as int, nc as int, dof as int, nd as int);
                    lemma_mul_le(comp as int, comp as int, nd as int, nd as int);
                    assert(nc * nd == nd * nc) by (nonlinear_arith);
                }
                s = s.add(self.interp[qpt * nd + dof].mul(u[comp * nd + dof]));
            }
            r.push(s);
        }
        assert(r@ =~= goal);
        r
    }

    fn interp_transposed(&self, u: &[T]) -> (r: Vec<T>)
        requires
            self@.valid(),
            u@.len() == self@.shape.point_len(EvalMode::Interp),
            self@.shape.nodal_len() <= usize::MAX,
        ensures
            r@ == (self@.interp_image(true))(u@),
    {
        assert(u@.len() == u.len());
        let (nd, nq, nc) = (self.shape.num_dof, self.shape.num_qpoints, self.shape.ncomp);
        let ghost goal = (self@.interp_image(true))(u@);
        let mut r: Vec<T> = Vec::new();
        for k in 0..nd * nc
            invariant
                self@.valid(),
                nd == self@.shape.num_dof && nq == self@.shape.num_qpoints && nc
                    == self@.shape.ncomp,
                u@.len() == nq * nc,
                nq * nc <= usize::MAX,
                nd * nc <= usize::MAX,
                goal == (self@.interp_image(true))(u@),
                r@.len() == k,
                forall|i: int| 0 <= i < k ==> #[trigger] r@[i] == goal[i],
        {
            proof {
                assert(nc * nd == nd * nc) by (nonlinear_arith);
                lemma_split(k as int, nc as int, nd as int);
            }
            let comp: usize = k / nd;
            let dof: usize = k % nd;
            let mut s = T::zero();
            for qpt in 0..nq
                invariant
                    self@.valid(),
                    nd == self@.shape.num_dof && nq == self@.shape.num_qpoints && nc
                        == self@.shape.ncomp,
                    u@.len() == nq * nc,
                    nq * nc <= usize::MAX,
                    dof < nd,
                    comp < nc,
                    s == sum(qpt as int, self@.interp_back_terms(u@, dof as int, comp as int)),
            {
                proof {
                    lemma_entry(self@, qpt as int, dof as int, 0);
                    lemma_flat(qpt as int, nq as int, comp as int, nc as int);
                    lemma_mul_le(qpt as int, qpt as int, nc as int, nc as int);
                }
                s = s.add(self.interp[qpt * nd + dof].mul(u[qpt * nc + comp]));
            }
            r.push(T::zero().add(s));
        }
        assert(r@ =~= goal);
        r
    }

    fn grad_forward(&self, u: &[T]) -> (r: Vec<T>)
        requires
            self@.valid(),
            u@.len() == self@.shape.nodal_len(),
            self@.shape.point_len(EvalMode::Grad) <= usize::MAX,
            self@.shape.qcomp() <= usize::MAX,
        ensures
            r@ == (self@.grad_image(false))(u@),
    {
        assert(u@.len() == u.len());
        let (nd, nq, nc, dim) = (
            self.shape.num_dof,
            self.shape.num_qpoints,
            self.shape.ncomp,
            self.shape.dim,
        );
        let ghost goal = (self@.grad_image(false))(u@);
        proof {
            lemma_mul_le(nc as int, nc as int, dim as int, dim as int);
        }
        let qc: usize = nc * dim;
        let mut r: Vec<T> = Vec::new();
        for k in 0..nq * qc
            invariant
                self@.valid(),
                nd == self@.shape.num_dof && nq == self@.shape.num_qpoints && nc
                    == self@.shape.ncomp && dim == self@.shape.dim,
                qc == nc * dim,
                u@.len() == nd * nc,
                nd * nc <= usize::MAX,
                nq * qc <= usize::MAX,
                goal == (self@.grad_image(false))(u@),
                r@.len() == k,
                forall|i: int| 0 <= i < k ==> #[trigger] r@[i] == goal[i],
        {
            proof {
                lemma_split(k as int, nq as int, qc as int);
                lemma_split(k as int % qc as int, nc as int, dim as int);
            }
            let qpt: usize = k / qc;
            let slot: usize = k % qc;
            let comp: usize = slot / dim;
            let d: usize = slot % dim;
            let mut s = T::zero();
            for dof in 0..nd
                invariant
                    self@.valid(),
                    nd == self@.shape.num_dof && nq == self@.shape.num_qpoints && nc
                        == self@.shape.ncomp && dim == self@.shape.dim,
                    u@.len() == nd * nc,
                    nd * nc <= usize::MAX,
                    qpt < nq,
                    comp < nc,
                    d < dim,
                    s == sum(dof as int, self@.grad_terms(u@, qpt as int, comp as int, d as int)),
            {
                proof {
                    lemma_entry(self@, qpt as int, dof as int, d as int);
                    lemma_flat(comp as int, nc as int, dof as int, nd as int);
                    lemma_mul_le(comp as int, comp as int, nd as int, nd as int);
                    assert(nc * nd == nd * nc) by (nonlinear_arith);
                }
                s = s.add(self.grad[(qpt * nd + dof) * dim + d].mul(u[comp * nd + dof]));
            }
            r.push(s);
        }
        assert(r@ =~= goal);
        r
    }

    fn grad_transposed(&self, u: &[T]) -> (r: Vec<T>)
        requires
            self@.valid(),
            u@.len() == self@.shape.point_len(EvalMode::Grad),
            self@.shape.nodal_len() <= usize::MAX,
            self@.shape.qcomp() <= usize::MAX,
        ensures
            r@ == (self@.grad_image(true))(u@),
    {
        assert(u@.len() == u.len());
        let (nd, nq, nc, dim) = (
            self.shape.num_dof,
            self.shape.num_qpoints,
            self.shape.ncomp,
            self.shape.dim,
        );
        let ghost goal = (self@.grad_image(true))(u@);
        proof {
            lemma_mul_le(nc as int, nc as int, dim as int, dim as int);
            lemma_mul_le(nq as int, nq as int, 1, nd as int);
            lemma_mul_le(nq as int, nq * nd, dim as int, dim as int);
        }
        let qc: usize = nc * dim;
        let steps: usize = nq * dim;
        let mut r: Vec<T> = Vec::new();
        for k in 0..nd * nc
            invariant
                self@.valid(),
                nd == self@.shape.num_dof && nq == self@.shape.num_qpoints && nc
                    == self@.shape.ncomp && dim == self@.shape.dim,
                qc == nc * dim,
                steps == nq * dim,
                u@.len() == nq * qc,
                nq * qc <= usize::MAX,
                nd * nc <= usize::MAX,
                goal == (self@.grad_image(true))(u@),
                r@.len() == k,
                forall|i: int| 0 <= i < k ==> #[trigger] r@[i] == goal[i],
        {
            proof {
                assert(nc * nd == nd * nc) by (nonlinear_arith);
                lemma_split(k as int, nc as int, nd as int);
            }
            let comp: usize = k / nd;
            let dof: usize = k % nd;
            let mut s = T::zero();
            for t in 0..steps
                invariant
                    self@.valid(),
                    nd == self@.shape.num_dof && nq == self@.shape.num_qpoints && nc
                        == self@.shape.ncomp && dim == self@.shape.dim,
                    qc == nc * dim,
                    steps == nq * dim,
                    u@.len() == nq * qc,
                    nq * qc <= usize::MAX,
                    dof < nd,
                    comp < nc,
                    s == sum(t as int, self@.grad_back_terms(u@, dof as int, comp as int)),
            {
                proof {
                    lemma_split(t as int, nq as int, dim as int);
                    let (qpt, d) = (t as int / dim as int, t as int % dim as int);
                    lemma_entry(self@, qpt, dof as int, d);
                    lemma_flat(comp as int, nc as int, d, dim as int);
                    lemma_mul_le(comp as int, comp as int, dim as int, dim as int);
                    lemma_flat(qpt, nq as int, comp * dim + d, qc as int);
                    lemma_mul_le(qpt, qpt, qc as int, qc as int);
                }
                let qpt: usize = t / dim;
                let d: usize = t % dim;
                s = s.add(
                    self.grad[(qpt * nd + dof) * dim + d].mul(u[qpt * qc + (comp * dim + d)]),
                );
            }
            r.push(T::zero().add(s));
        }
        assert(r@ =~= goal);
        r
    }
}

impl<T: Real> NodalKernel<T> for DenseTables<T> {
    open spec fn ready(&self) -> bool {
        self@.valid()
    }

    open spec fn family_of(&self) -> Family {
        self@.family
    }

    open spec fn shape_of(&self) -> NodalShape {
        self@.shape
    }

    open spec fn weight_table(&self) -> Seq<T> {
        self@.weights
    }

    open spec fn interp_image(&self, transpose: bool) -> spec_fn(Seq<T>) -> Seq<T> {
        self@.interp_image(transpose)
    }

    open spec fn grad_image(&self, transpose: bool) -> spec_fn(Seq<T>) -> Seq<T> {
        self@.grad_image(transpose)
    }

    fn family(&self) -> (f: Family) {
        self.family
    }

    fn shape(&self) -> (s: NodalShape) {
        self.shape
    }

    fn weight_slice(&self) -> (w: &[T]) {
        self.weights.as_slice()
    }

    fn interp_elem(&self, transpose: bool, u: &[T]) -> (r: Vec<T>) {
        if transpose {
            self.interp_transposed(u)
        } else {
            self.interp_forward(u)
        }
    }

    fn grad_elem(&self, transpose: bool, u: &[T]) -> (r: Vec<T>) {
        if transpose {
            self.grad_transposed(u)
        } else {
            self.grad_forward(u)
        }
    }
}

impl<T: Real> DenseView<T> {
    /// Image of one element under a mode that reads nodal or point values.
    pub open spec fn image(self, eval_mode: EvalMode, transpose: bool) -> spec_fn(Seq<T>) -> Seq<T> {
        nodal_image_of(
            self.shape,
            self.interp_image(transpose),
            self.grad_image(transpose),
            eval_mode,
            transpose,
        )
    }

    /// The output vector after an application.
    pub open spec fn applied(
        self,
        num_elem: int,
        transpose: bool,
        eval_mode: EvalMode,
        u: Seq<T>,
        v: Seq<T>,
    ) -> Seq<T> {
        nodal_applied_of(
            self.family,
            self.shape,
            self.weights,
            self.image(effective_mode(eval_mode), transpose),
            num_elem,
            transpose,
            eval_mode,
            u,
            v,
        )
    }
}

} // verus!
