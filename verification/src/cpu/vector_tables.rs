//! Vector-valued bases with scalar degrees of freedom, given by tables at the quadrature points.
//!
//! Nodal data hold `dim` entries per degree of freedom; only the first one is used.

use vstd::prelude::*;

use crate::cpu::batch::{apply_batch, ElementMap};
#[allow(unused_imports)]
use crate::cpu::batch::batched;
use crate::cpu::convert::store_all;
#[allow(unused_imports)]
use crate::cpu::convert::{stored, unstorable, unstorable_message};
use crate::cpu::nodal::fill_weights;
use crate::cpu::simplex_shapes::{tet_quadrature, tri_quadrature};
#[allow(unused_imports)]
use crate::cpu::simplex_shapes::{
    tet_rule, tet_rule_message, tet_rule_points, tet_rule_weights, tri_rule, tri_rule_message,
    tri_rule_points, tri_rule_weights,
};
use crate::cpu::vector_shapes::{
    tet_nedelec_p1, tet_nedelec_p2, tet_rt0, tet_rt1, tri_nedelec_p1, tri_nedelec_p2,
    tri_nedelec_p3, tri_rt0, tri_rt1, tri_rt2,
};
#[allow(unused_imports)]
use crate::cpu::vector_shapes::{
    tet_nedelec_curls, tet_nedelec_values, tet_rt_divergences, tet_rt_values, tri_nedelec_curls,
    tri_nedelec_values, tri_rt_divergences, tri_rt_values,
};
use crate::enums::EvalMode;
use crate::error::{ErrorKind, ReedError, ReedResult};
#[allow(unused_imports)]
use crate::error::refused;
#[allow(unused_imports)]
use crate::index::{lemma_flat, lemma_flat3, lemma_mul_le, lemma_split};
#[allow(unused_imports)]
use crate::linear::{
    adjoint, col_terms, lemma_adjoint_batched, lemma_matrix_adjoint, lemma_sum_stride, row_terms,
};
use crate::scalar::{Real, Scalar};
#[allow(unused_imports)]
use crate::scalar::{
    exact_ring, inner, lemma_plus_zero, lemma_sum_ext, lemma_sum_zero, lemma_times_zero, sum,
};
use crate::text::Message;
#[allow(unused_imports)]
use crate::text::decimal;

verus! {

/// The two families: tangential (edge) and normal (face) elements.
#[derive(Clone, Copy, PartialEq, Eq, Structural)]
pub enum VectorFamily {
    Nedelec,
    RaviartThomas,
}

impl VectorFamily {
    /// Name of the basis in messages.
    pub open spec fn title(self) -> Seq<char> {
        match self {
            VectorFamily::Nedelec => "NedelecBasis"@,
            VectorFamily::RaviartThomas => "RaviartThomasBasis"@,
        }
    }

    fn title_text(self) -> (s: &'static str)
        ensures
            s@ == self.title(),
    {
        match self {
            VectorFamily::Nedelec => "NedelecBasis",
            VectorFamily::RaviartThomas => "RaviartThomasBasis",
        }
    }

    /// The mode that differentiates.
    pub open spec fn deriv_mode(self) -> EvalMode {
        match self {
            VectorFamily::Nedelec => EvalMode::HCurl,
            VectorFamily::RaviartThomas => EvalMode::HDiv,
        }
    }

    /// Components of the derivative: three for a curl in space, else one.
    pub open spec fn deriv_comps(self, dim: int) -> int {
        if self == VectorFamily::Nedelec && dim == 3 {
            3
        } else {
            1
        }
    }
}

/// The mathematical content of [`VectorTables`].
///
/// `interp` is row-major points × functions × directions, `deriv` points × functions ×
/// derivative components.
pub struct VectorView<T> {
    pub family: VectorFamily,
    pub dim: usize,
    pub num_dof: usize,
    pub num_qpoints: usize,
    pub q_ref: Seq<T>,
    pub weights: Seq<T>,
    pub interp: Seq<T>,
    pub deriv: Seq<T>,
}

/// Products of value `d` at point `qpt`: the coefficient of function `dof` is entry `dof * dim`.
pub open spec fn field_terms<T: Real>(
    table: Seq<T>,
    comps: int,
    nd: int,
    dim: int,
    u: Seq<T>,
    qpt: int,
    d: int,
) -> spec_fn(int) -> T {
    |dof: int| table[(qpt * nd + dof) * comps + d].times(u[dof * dim])
}

/// Products of the coefficient of function `dof`; `t` runs over points and components.
pub open spec fn moment_terms<T: Real>(
    table: Seq<T>,
    comps: int,
    nd: int,
    w: Seq<T>,
    dof: int,
) -> spec_fn(int) -> T {
    |t: int| table[(t / comps * nd + dof) * comps + t % comps].times(w[t])
}

/// The map that a table gives on one element.
pub open spec fn table_image<T: Real>(
    table: Seq<T>,
    comps: int,
    nq: int,
    nd: int,
    dim: int,
    transpose: bool,
) -> spec_fn(Seq<T>) -> Seq<T> {
    if transpose {
        |w: Seq<T>|
            Seq::new(
                (nd * dim) as nat,
                |k: int|
                    if k % dim == 0 {
                        T::zero_val().plus(
                            sum(nq * comps, moment_terms(table, comps, nd, w, k / dim)),
                        )
                    } else {
                        T::zero_val()
                    },
            )
    } else {
        |u: Seq<T>|
            Seq::new(
                (nq * comps) as nat,
                |k: int| sum(nd, field_terms(table, comps, nd, dim, u, k / comps, k % comps)),
            )
    }
}

impl<T: Real> VectorView<T> {
    /// Components of the derivative.
    pub open spec fn deriv_comps(self) -> int {
        self.family.deriv_comps(self.dim as int)
    }

    /// The tables have the right sizes.
    pub open spec fn valid(self) -> bool {
        &&& self.dim == 2 || self.dim == 3
        &&& 1 <= self.num_dof <= 20
        &&& 1 <= self.num_qpoints <= 7
        &&& self.weights.len() == self.num_qpoints
        &&& self.q_ref.len() == self.num_qpoints * self.dim
        &&& self.interp.len() == self.num_qpoints * self.num_dof * self.dim
        &&& self.deriv.len() == self.num_qpoints * self.num_dof * self.deriv_comps()
    }

    /// The mode in which an application computes.
    pub open spec fn mode(self, eval_mode: EvalMode) -> EvalMode {
        if eval_mode == EvalMode::Weight {
            EvalMode::Interp
        } else {
            eval_mode
        }
    }

    /// The mode is one the basis computes in.
    pub open spec fn has_mode(self, eval_mode: EvalMode) -> bool {
        eval_mode == EvalMode::Interp || eval_mode == self.family.deriv_mode()
    }

    /// The table of a mode.
    pub open spec fn table(self, eval_mode: EvalMode) -> Seq<T> {
        if eval_mode == EvalMode::Interp {
            self.interp
        } else {
            self.deriv
        }
    }

    /// Components per point in a mode.
    pub open spec fn mode_comps(self, eval_mode: EvalMode) -> int {
        if eval_mode == EvalMode::Interp {
            self.dim as int
        } else {
            self.deriv_comps()
        }
    }

    /// Length of an element's nodal data.
    pub open spec fn nodal_len(self) -> int {
        self.num_dof * self.dim
    }

    /// Length of an element's data at the points.
    pub open spec fn point_len(self, eval_mode: EvalMode) -> int {
        self.num_qpoints * self.mode_comps(eval_mode)
    }

    /// Length of an element's input.
    pub open spec fn in_len(self, eval_mode: EvalMode, transpose: bool) -> int {
        if transpose {
            self.point_len(eval_mode)
        } else {
            self.nodal_len()
        }
    }

    /// Length of an element's output.
    pub open spec fn out_len(self, eval_mode: EvalMode, transpose: bool) -> int {
        if transpose {
            self.nodal_len()
        } else {
            self.point_len(eval_mode)
        }
    }

    /// The map on one element.
    pub open spec fn image(self, eval_mode: EvalMode, transpose: bool) -> spec_fn(Seq<T>) -> Seq<T> {
        table_image(
            self.table(eval_mode),
            self.mode_comps(eval_mode),
            self.num_qpoints as int,
            self.num_dof as int,
            self.dim as int,
            transpose,
        )
    }

    /// Sizes stay in machine range.
    pub open spec fn admits(self, num_elem: int, transpose: bool, eval_mode: EvalMode) -> bool {
        let mode = self.mode(eval_mode);
        if eval_mode == EvalMode::Weight && !transpose {
            num_elem * self.num_qpoints <= usize::MAX
        } else {
            self.has_mode(mode) ==> {
                &&& num_elem * self.in_len(mode, transpose) <= usize::MAX
                &&& num_elem * self.out_len(mode, transpose) <= usize::MAX
            }
        }
    }

    /// Name of a mode in size messages.
    pub open spec fn mode_label(self, eval_mode: EvalMode) -> Seq<char> {
        if eval_mode == EvalMode::Interp {
            "interp"@
        } else if self.family == VectorFamily::RaviartThomas {
            "hdiv"@
        } else if self.dim == 2 {
            "hcurl-2d"@
        } else {
            "hcurl-3d"@
        }
    }

    /// The error of an application, if it fails.
    pub open spec fn refusal(
        self,
        num_elem: int,
        transpose: bool,
        eval_mode: EvalMode,
        ulen: nat,
        vlen: nat,
    ) -> Option<(ErrorKind, Seq<char>)> {
        let mode = self.mode(eval_mode);
        if eval_mode == EvalMode::Weight && !transpose {
            let want = num_elem * self.num_qpoints;
            if vlen != want {
                Some(
                    (
                        ErrorKind::Basis,
                        "weight output length "@ + decimal(vlen) + " != expected "@ + decimal(
                            want as nat,
                        ),
                    ),
                )
            } else {
                None
            }
        } else if !self.has_mode(mode) {
            Some(
                (
                    ErrorKind::Basis,
                    self.family.title() + ": eval mode "@ + eval_mode.name_text()
                        + " not implemented"@,
                ),
            )
        } else {
            let win = num_elem * self.in_len(mode, transpose);
            let wout = num_elem * self.out_len(mode, transpose);
            if ulen != win || vlen != wout {
                Some(
                    (
                        ErrorKind::Basis,
                        self.family.title() + " "@ + self.mode_label(mode)
                            + " size mismatch: input "@ + decimal(ulen) + " (expected "@ + decimal(
                            win as nat,
                        ) + "), output "@ + decimal(vlen) + " (expected "@ + decimal(wout as nat)
                            + ")"@,
                    ),
                )
            } else {
                None
            }
        }
    }

    /// The output vector after an application.
    pub open spec fn applied(
        self,
        num_elem: int,
        transpose: bool,
        eval_mode: EvalMode,
        u: Seq<T>,
        v: Seq<T>,
    ) -> Seq<T> {
        let mode = self.mode(eval_mode);
        if self.refusal(num_elem, transpose, eval_mode, u.len(), v.len()) is Some {
            v
        } else if eval_mode == EvalMode::Weight && !transpose {
            Seq::new(v.len(), |i: int| self.weights[i % (self.num_qpoints as int)])
        } else {
            batched(
                self.image(mode, transpose),
                num_elem,
                self.in_len(mode, transpose),
                self.out_len(mode, transpose),
                u,
            )
        }
    }
}

/// A vector-valued basis by its tables.
pub struct VectorTables<T: Real> {
    pub family: VectorFamily,
    pub dim: usize,
    pub num_dof: usize,
    pub num_qpoints: usize,
    pub q_ref: Vec<T>,
    pub weights: Vec<T>,
    pub interp: Vec<T>,
    pub deriv: Vec<T>,
}

impl<T: Real> View for VectorTables<T> {
    type V = VectorView<T>;

    open spec fn view(&self) -> VectorView<T> {
        VectorView {
            family: self.family,
            dim: self.dim,
            num_dof: self.num_dof,
            num_qpoints: self.num_qpoints,
            q_ref: self.q_ref@,
            weights: self.weights@,
            interp: self.interp@,
            deriv: self.deriv@,
        }
    }
}

/// Computes the forward image of a table.
fn forward_image<T: Real>(
    table: &Vec<T>,
    comps: usize,
    nq: usize,
    nd: usize,
    dim: usize,
    u: &[T],
) -> (r: Vec<T>)
    requires
        1 <= comps <= 3,
        1 <= nq <= 7,
        1 <= nd <= 20,
        1 <= dim <= 3,
        table@.len() == nq * nd * comps,
        u@.len() == nd * dim,
    ensures
        r@ == (table_image(
            table@,
            comps as int,
            nq as int,
            nd as int,
            dim as int,
            false,
        ))(u@),
        r@.len() == nq * comps,
{
    let ghost goal = (table_image(
        table@,
        comps as int,
        nq as int,
        nd as int,
        dim as int,
        false,
    ))(u@);
    proof {
        lemma_mul_le(nq as int, 7, comps as int, 3);
    }
    let mut r: Vec<T> = Vec::new();
    for k in 0..nq * comps
        invariant
            1 <= comps <= 3,
            1 <= nq <= 7,
            1 <= nd <= 20,
            1 <= dim <= 3,
            table@.len() == nq * nd * comps,
            u@.len() == nd * dim,
            goal == (table_image(
                table@,
                comps as int,
                nq as int,
                nd as int,
                dim as int,
                false,
            ))(u@),
            nq * comps <= 21,
            r@.len() == k,
            forall|i: int| 0 <= i < k ==> #[trigger] r@[i] == goal[i],
    {
        proof {
            lemma_split(k as int, nq as int, comps as int);
        }
        let qpt: usize = k / comps;
        let d: usize = k % comps;
        let mut s = T::zero();
        for dof in 0..nd
            invariant
                1 <= comps <= 3,
                1 <= nq <= 7,
                1 <= nd <= 20,
                1 <= dim <= 3,
                table@.len() == nq * nd * comps,
                u@.len() == nd * dim,
                qpt < nq,
                d < comps,
                s == sum(
                    dof as int,
                    field_terms(
                        table@,
                        comps as int,
                        nd as int,
                        dim as int,
                        u@,
                        qpt as int,
                        d as int,
                    ),
                ),
        {
            proof {
                lemma_flat3(qpt as int, nq as int, dof as int, nd as int, d as int, comps as int);
                lemma_flat(dof as int, nd as int, 0, dim as int);
                lemma_mul_le(qpt as int, 7, nd as int, 20);
                lemma_mul_le(qpt * nd + dof, 160, comps as int, 3);
                lemma_mul_le(dof as int, 20, dim as int, 3);
            }
            s = s.add(table[(qpt * nd + dof) * comps + d].mul(u[dof * dim]));
        }
        r.push(s);
    }
    assert(r@ =~= goal);
    r
}

/// Computes the transposed image of a table.
fn backward_image<T: Real>(
    table: &Vec<T>,
    comps: usize,
    nq: usize,
    nd: usize,
    dim: usize,
    w: &[T],
) -> (r: Vec<T>)
    requires
        1 <= comps <= 3,
        1 <= nq <= 7,
        1 <= nd <= 20,
        1 <= dim <= 3,
        table@.len() == nq * nd * comps,
        w@.len() == nq * comps,
    ensures
        r@ == (table_image(table@, comps as int, nq as int, nd as int, dim as int, true))(w@),
        r@.len() == nd * dim,
{
    let ghost goal = (table_image(
        table@,
        comps as int,
        nq as int,
        nd as int,
        dim as int,
        true,
    ))(w@);
    proof {
        lemma_mul_le(nq as int, 7, comps as int, 3);
        lemma_mul_le(nd as int, 20, dim as int, 3);
    }
    let mut r: Vec<T> = Vec::new();
    for k in 0..nd * dim
        invariant
            1 <= comps <= 3,
            1 <= nq <= 7,
            1 <= nd <= 20,
            1 <= dim <= 3,
            table@.len() == nq * nd * comps,
            w@.len() == nq * comps,
            goal == (table_image(
                table@,
                comps as int,
                nq as int,
                nd as int,
                dim as int,
                true,
            ))(w@),
            nq * comps <= 21,
            nd * dim <= 60,
            r@.len() == k,
            forall|i: int| 0 <= i < k ==> #[trigger] r@[i] == goal[i],
    {
        proof {
            lemma_split(k as int, nd as int, dim as int);
        }
        if k % dim != 0 {
            r.push(T::zero());
        } else {
            let dof: usize = k / dim;
            let mut s = T::zero();
            for t in 0..nq * comps
                invariant
                    1 <= comps <= 3,
                    1 <= nq <= 7,
                    1 <= nd <= 20,
                    table@.len() == nq * nd * comps,
                    w@.len() == nq * comps,
                    nq * comps <= 21,
                    dof < nd,
                    s == sum(
                        t as int,
                        moment_terms(table@, comps as int, nd as int, w@, dof as int),
                    ),
            {
                proof {
                    lemma_split(t as int, nq as int, comps as int);
                    lemma_flat3(
                        t as int / comps as int,
                        nq as int,
                        dof as int,
                        nd as int,
                        t as int % comps as int,
                        comps as int,
                    );
                    lemma_mul_le(t as int / comps as int, 7, nd as int, 20);
                    lemma_mul_le(t as int / comps as int * nd + dof, 160, comps as int, 3);
                }
                s = s.add(table[(t / comps * nd + dof) * comps + t % comps].mul(w[t]));
            }
            r.push(T::zero().add(s));
        }
    }
    assert(r@ =~= goal);
    r
}

impl<T: Real> ElementMap<T> for VectorTables<T> {
    open spec fn valid(&self) -> bool {
        self@.valid()
    }

    open spec fn has_mode(&self, eval_mode: EvalMode, transpose: bool) -> bool {
        self@.has_mode(eval_mode)
    }

    open spec fn in_len(&self, eval_mode: EvalMode, transpose: bool) -> int {
        self@.in_len(eval_mode, transpose)
    }

    open spec fn out_len(&self, eval_mode: EvalMode, transpose: bool) -> int {
        self@.out_len(eval_mode, transpose)
    }

    open spec fn image(&self, eval_mode: EvalMode, transpose: bool) -> spec_fn(Seq<T>) -> Seq<T> {
        self@.image(eval_mode, transpose)
    }

    fn compute(&self, eval_mode: EvalMode, transpose: bool, u: &[T]) -> (r: Vec<T>) {
        let comps: usize = self.mode_components(eval_mode);
        let table = match eval_mode {
            EvalMode::Interp => &self.interp,
            _ => &self.deriv,
        };
        if transpose {
            backward_image(table, comps, self.num_qpoints, self.num_dof, self.dim, u)
        } else {
            forward_image(table, comps, self.num_qpoints, self.num_dof, self.dim, u)
        }
    }
}

impl<T: Real> VectorTables<T> {
    fn mode_components(&self, eval_mode: EvalMode) -> (n: usize)
        requires
            self@.valid(),
        ensures
            n == self@.mode_comps(eval_mode),
            1 <= n <= 3,
    {
        match eval_mode {
            EvalMode::Interp => self.dim,
            _ => match self.family {
                VectorFamily::Nedelec => if self.dim == 3 {
                    3
                } else {
                    1
                },
                VectorFamily::RaviartThomas => 1,
            },
        }
    }

    fn mode_label_text(&self, eval_mode: EvalMode) -> (s: &'static str)
        ensures
            s@ == self@.mode_label(eval_mode),
    {
        match eval_mode {
            EvalMode::Interp => "interp",
            _ => match self.family {
                VectorFamily::RaviartThomas => "hdiv",
                VectorFamily::Nedelec => if self.dim == 2 {
                    "hcurl-2d"
                } else {
                    "hcurl-3d"
                },
            },
        }
    }

    /// Applies the basis to a batch of elements.
    pub fn apply(
        &self,
        num_elem: usize,
        transpose: bool,
        eval_mode: EvalMode,
        u: &[T],
        v: &mut [T],
    ) -> (r: ReedResult<()>)
        requires
            self@.valid(),
            self@.admits(num_elem as int, transpose, eval_mode),
        ensures
            final(v)@ == self@.applied(num_elem as int, transpose, eval_mode, u@, old(v)@),
            final(v)@.len() == old(v)@.len(),
            match self@.refusal(num_elem as int, transpose, eval_mode, u@.len(), old(v)@.len()) {
                Some(e) => r matches Err(x) && x@ == e,
                None => r is Ok,
            },
    {
        let mut mode = eval_mode;
        match eval_mode {
            EvalMode::Weight => {
                if !transpose {
                    let want: usize = num_elem * self.num_qpoints;
                    if v.len() != want {
                        return Err(
                            ReedError::Basis(
                                Message::new("weight output length ").num(v.len()).text(
                                    " != expected ",
                                ).num(want).done(),
                            ),
                        );
                    }
                    fill_weights(self.weights.as_slice(), v);
                    return Ok(());
                }
                mode = EvalMode::Interp;
            },
            _ => {},
        }
        let supported = match (mode, self.family) {
            (EvalMode::Interp, _) => true,
            (EvalMode::HCurl, VectorFamily::Nedelec) => true,
            (EvalMode::HDiv, VectorFamily::RaviartThomas) => true,
            _ => false,
        };
        if !supported {
            return Err(
                ReedError::Basis(
                    Message::new(self.family.title_text()).text(": eval mode ").text(
                        eval_mode.name(),
                    ).text(" not implemented").done(),
                ),
            );
        }
        let comps: usize = self.mode_components(mode);
        proof {
            lemma_mul_le(self.num_dof as int, 20, self.dim as int, 3);
            lemma_mul_le(self.num_qpoints as int, 7, comps as int, 3);
        }
        let nodal: usize = self.num_dof * self.dim;
        let points: usize = self.num_qpoints * comps;
        let (in_len, out_len) = if transpose {
            (points, nodal)
        } else {
            (nodal, points)
        };
        let in_size: usize = num_elem * in_len;
        let out_size: usize = num_elem * out_len;
        if u.len() != in_size || v.len() != out_size {
            return Err(
                ReedError::Basis(
                    Message::new(self.family.title_text()).text(" ").text(
                        self.mode_label_text(mode),
                    ).text(" size mismatch: input ").num(u.len()).text(" (expected ").num(
                        in_size,
                    ).text("), output ").num(v.len()).text(" (expected ").num(out_size).text(
                        ")",
                    ).done(),
                ),
            );
        }
        apply_batch(self, num_elem, mode, transpose, in_len, out_len, u, v);
        Ok(())
    }
}

// ── construction ────────────────────────────────────────────────────────────

/// Number of functions of an order; zero where there is no basis of this order.
pub open spec fn vector_dofs(family: VectorFamily, dim: int, p: int) -> int {
    match family {
        VectorFamily::Nedelec => if dim == 2 {
            if p == 1 {
                3
            } else if p == 2 {
                8
            } else if p == 3 {
                15
            } else {
                0
            }
        } else {
            if p == 1 {
                6
            } else if p == 2 {
                20
            } else {
                0
            }
        },
        VectorFamily::RaviartThomas => if dim == 2 {
            if p == 0 {
                3
            } else if p == 1 {
                8
            } else if p == 2 {
                15
            } else {
                0
            }
        } else {
            if p == 0 {
                4
            } else if p == 1 {
                20
            } else {
                0
            }
        },
    }
}

/// There is a quadrature rule with `q` points.
pub open spec fn rule(dim: int, q: int) -> bool {
    if dim == 2 {
        tri_rule(q)
    } else {
        tet_rule(q)
    }
}

/// Quadrature points.
pub open spec fn rule_points<R: Real>(dim: int, q: int) -> Seq<R> {
    if dim == 2 {
        tri_rule_points(q)
    } else {
        tet_rule_points(q)
    }
}

/// Quadrature weights.
pub open spec fn rule_weights<R: Real>(dim: int, q: int) -> Seq<R> {
    if dim == 2 {
        tri_rule_weights(q)
    } else {
        tet_rule_weights(q)
    }
}

/// The first `nd` functions at point `i` of the coordinate list `pts`.
pub open spec fn vector_values<R: Real>(
    family: VectorFamily,
    dim: int,
    nd: int,
    pts: Seq<R>,
    i: int,
) -> Seq<R> {
    match family {
        VectorFamily::Nedelec => if dim == 2 {
            tri_nedelec_values(pts[2 * i], pts[2 * i + 1], nd)
        } else {
            tet_nedelec_values(pts[3 * i], pts[3 * i + 1], pts[3 * i + 2], nd)
        },
        VectorFamily::RaviartThomas => if dim == 2 {
            tri_rt_values(pts[2 * i], pts[2 * i + 1], nd)
        } else {
            tet_rt_values(pts[3 * i], pts[3 * i + 1], pts[3 * i + 2], nd)
        },
    }
}

/// The derivatives of the first `nd` functions at point `i` of the coordinate list `pts`.
pub open spec fn vector_derivs<R: Real>(
    family: VectorFamily,
    dim: int,
    nd: int,
    pts: Seq<R>,
    i: int,
) -> Seq<R> {
    match family {
        VectorFamily::Nedelec => if dim == 2 {
            tri_nedelec_curls(pts[2 * i], pts[2 * i + 1], nd)
        } else {
            tet_nedelec_curls(pts[3 * i], pts[3 * i + 1], pts[3 * i + 2], nd)
        },
        VectorFamily::RaviartThomas => if dim == 2 {
            tri_rt_divergences(pts[2 * i], pts[2 * i + 1], nd)
        } else {
            tet_rt_divergences(pts[3 * i], pts[3 * i + 1], pts[3 * i + 2], nd)
        },
    }
}

/// Value table in the working type.
pub open spec fn vector_interp<R: Real>(family: VectorFamily, dim: int, nd: int, q: int) -> Seq<R> {
    let row = nd * dim;
    Seq::new(
        (q * row) as nat,
        |k: int| vector_values::<R>(family, dim, nd, rule_points(dim, q), k / row)[k % row],
    )
}

/// Derivative table in the working type.
pub open spec fn vector_deriv<R: Real>(family: VectorFamily, dim: int, nd: int, q: int) -> Seq<R> {
    let row = nd * family.deriv_comps(dim);
    Seq::new(
        (q * row) as nat,
        |k: int| vector_derivs::<R>(family, dim, nd, rule_points(dim, q), k / row)[k % row],
    )
}

/// The basis that the parameters describe.
pub open spec fn vector_view<T: Scalar>(
    family: VectorFamily,
    dim: int,
    nd: int,
    q: int,
) -> VectorView<T> {
    VectorView {
        family,
        dim: dim as usize,
        num_dof: nd as usize,
        num_qpoints: q as usize,
        q_ref: stored::<T>(rule_points(dim, q)),
        weights: stored::<T>(rule_weights(dim, q)),
        interp: stored::<T>(vector_interp(family, dim, nd, q)),
        deriv: stored::<T>(vector_deriv(family, dim, nd, q)),
    }
}

/// The first table value that cannot be stored.
pub open spec fn vector_unstorable<T: Scalar>(
    family: VectorFamily,
    dim: int,
    nd: int,
    q: int,
) -> Option<T::Work> {
    if unstorable::<T>(rule_points(dim, q)) is Some {
        unstorable::<T>(rule_points(dim, q))
    } else if unstorable::<T>(rule_weights(dim, q)) is Some {
        unstorable::<T>(rule_weights(dim, q))
    } else if unstorable::<T>(vector_interp(family, dim, nd, q)) is Some {
        unstorable::<T>(vector_interp(family, dim, nd, q))
    } else {
        unstorable::<T>(vector_deriv(family, dim, nd, q))
    }
}

/// Why tables cannot be built, if they cannot.
pub open spec fn tables_refusal<T: Scalar>(
    family: VectorFamily,
    dim: int,
    nd: int,
    q: usize,
) -> Option<Seq<char>> {
    if !rule(dim, q as int) {
        Some(
            if dim == 2 {
                tri_rule_message(q as nat)
            } else {
                tet_rule_message(q as nat)
            },
        )
    } else {
        match vector_unstorable::<T>(family, dim, nd, q as int) {
            Some(w) => Some(unstorable_message(conversion_head(family), w)),
            None => None,
        }
    }
}

/// Head of the message about a value that cannot be stored.
pub open spec fn conversion_head(family: VectorFamily) -> Seq<char> {
    match family {
        VectorFamily::Nedelec => "NedelecBasis: failed to convert "@,
        VectorFamily::RaviartThomas => "RaviartThomasBasis: failed to convert "@,
    }
}

fn conversion_head_text(family: VectorFamily) -> (s: &'static str)
    ensures
        s@ == conversion_head(family),
{
    match family {
        VectorFamily::Nedelec => "NedelecBasis: failed to convert ",
        VectorFamily::RaviartThomas => "RaviartThomasBasis: failed to convert ",
    }
}

fn functions_at<R: Real>(family: VectorFamily, dim: usize, p: usize, pts: &Vec<R>, i: usize) -> (r:
    (Vec<R>, Vec<R>))
    requires
        dim == 2 || dim == 3,
        vector_dofs(family, dim as int, p as int) > 0,
        (i + 1) * dim <= pts@.len(),
    ensures
        ({
            let nd = vector_dofs(family, dim as int, p as int);
            &&& r.0@ == vector_values(family, dim as int, nd, pts@, i as int)
            &&& r.1@ == vector_derivs(family, dim as int, nd, pts@, i as int)
            &&& r.0@.len() == nd * dim
            &&& r.1@.len() == nd * family.deriv_comps(dim as int)
        }),
{
    let n: usize = pts.len();
    if dim == 2 {
        let (x, y) = (pts[2 * i], pts[2 * i + 1]);
        match family {
            VectorFamily::Nedelec => if p == 1 {
                tri_nedelec_p1(x, y)
            } else if p == 2 {
                tri_nedelec_p2(x, y)
            } else {
                tri_nedelec_p3(x, y)
            },
            VectorFamily::RaviartThomas => if p == 0 {
                tri_rt0(x, y)
            } else if p == 1 {
                tri_rt1(x, y)
            } else {
                tri_rt2(x, y)
            },
        }
    } else {
        let (x, y, z) = (pts[3 * i], pts[3 * i + 1], pts[3 * i + 2]);
        match family {
            VectorFamily::Nedelec => if p == 1 {
                tet_nedelec_p1(x, y, z)
            } else {
                tet_nedelec_p2(x, y, z)
            },
            VectorFamily::RaviartThomas => if p == 0 {
                tet_rt0(x, y, z)
            } else {
                tet_rt1(x, y, z)
            },
        }
    }
}

/// Tables of values and derivatives at all points.
fn function_tables<R: Real>(
    family: VectorFamily,
    dim: usize,
    p: usize,
    q: usize,
    pts: &Vec<R>,
) -> (r: (Vec<R>, Vec<R>))
    requires
        dim == 2 || dim == 3,
        vector_dofs(family, dim as int, p as int) > 0,
        pts@ == rule_points::<R>(dim as int, q as int),
        pts@.len() == q * dim,
    ensures
        ({
            let nd = vector_dofs(family, dim as int, p as int);
            &&& r.0@ == vector_interp::<R>(family, dim as int, nd, q as int)
            &&& r.1@ == vector_deriv::<R>(family, dim as int, nd, q as int)
        }),
{
    let ghost nd = vector_dofs(family, dim as int, p as int);
    let ghost row = nd * dim;
    let ghost row_deriv = nd * family.deriv_comps(dim as int);
    let ghost goal = vector_interp::<R>(family, dim as int, nd, q as int);
    let ghost goal_deriv = vector_deriv::<R>(family, dim as int, nd, q as int);
    let mut interp: Vec<R> = Vec::new();
    let mut deriv: Vec<R> = Vec::new();
    proof {
        assert(0 * row == 0 && 0 * row_deriv == 0);
    }
    for i in 0..q
        invariant
            dim == 2 || dim == 3,
            nd == vector_dofs(family, dim as int, p as int),
            nd > 0,
            pts@ == rule_points::<R>(dim as int, q as int),
            pts@.len() == q * dim,
            row == nd * dim,
            row_deriv == nd * family.deriv_comps(dim as int),
            goal == vector_interp::<R>(family, dim as int, nd, q as int),
            goal_deriv == vector_deriv::<R>(family, dim as int, nd, q as int),
            interp@.len() == i * row,
            deriv@.len() == i * row_deriv,
            forall|k: int| 0 <= k < interp@.len() ==> #[trigger] interp@[k] == goal[k],
            forall|k: int| 0 <= k < deriv@.len() ==> #[trigger] deriv@[k] == goal_deriv[k],
    {
        proof {
            assert((i + 1) * dim <= q * dim) by (nonlinear_arith)
                requires
                    i + 1 <= q,
                    0 <= dim,
            ;
            assert(i * row + row == (i + 1) * row) by (nonlinear_arith);
            assert(i * row_deriv + row_deriv == (i + 1) * row_deriv) by (nonlinear_arith);
        }
        let (mut values, mut slopes) = functions_at(family, dim, p, pts, i);
        let ghost (phi, dphi) = (values@, slopes@);
        let ghost (before, before_deriv) = (interp@, deriv@);
        interp.append(&mut values);
        deriv.append(&mut slopes);
        proof {
            assert forall|k: int| 0 <= k < interp@.len() implies #[trigger] interp@[k] == goal[k] by {
                if k >= i * row {
                    lemma_flat(i as int, q as int, k - i * row, row);
                    assert(interp@[k] == phi[k - i * row]);
                } else {
                    assert(interp@[k] == before[k]);
                }
            }
            assert forall|k: int| 0 <= k < deriv@.len() implies #[trigger] deriv@[k]
                == goal_deriv[k] by {
                if k >= i * row_deriv {
                    lemma_flat(i as int, q as int, k - i * row_deriv, row_deriv);
                    assert(deriv@[k] == dphi[k - i * row_deriv]);
                } else {
                    assert(deriv@[k] == before_deriv[k]);
                }
            }
        }
    }
    assert(interp@ =~= goal);
    assert(deriv@ =~= goal_deriv);
    (interp, deriv)
}

/// Builds the tables of order `p` with `q` quadrature points on the triangle (`dim` 2) or the
/// tetrahedron (`dim` 3).
pub(crate) fn build_tables<T: Scalar>(
    family: VectorFamily,
    dim: usize,
    p: usize,
    num_dof: usize,
    q: usize,
) -> (r: ReedResult<VectorTables<T>>)
    requires
        dim == 2 || dim == 3,
        num_dof > 0,
        num_dof == vector_dofs(family, dim as int, p as int),
    ensures
        match tables_refusal::<T>(family, dim as int, num_dof as int, q) {
            Some(m) => refused(r, ErrorKind::Basis, m),
            None => r matches Ok(t) && t@.valid() && t@ == vector_view::<T>(
                family,
                dim as int,
                num_dof as int,
                q as int,
            ),
        },
{
    let head = conversion_head_text(family);
    let quadrature = if dim == 2 {
        tri_quadrature::<T::Work>(q)
    } else {
        tet_quadrature::<T::Work>(q)
    };
    let (points, wts) = match quadrature {
        Ok(t) => t,
        Err(e) => {
            return Err(e);
        },
    };
    let q_ref = match store_all::<T>(&points, head) {
        Ok(t) => t,
        Err(e) => {
            return Err(e);
        },
    };
    let weights = match store_all::<T>(&wts, head) {
        Ok(t) => t,
        Err(e) => {
            return Err(e);
        },
    };
    let (values, slopes) = function_tables::<T::Work>(family, dim, p, q, &points);
    let interp = match store_all::<T>(&values, head) {
        Ok(t) => t,
        Err(e) => {
            return Err(e);
        },
    };
    let deriv = match store_all::<T>(&slopes, head) {
        Ok(t) => t,
        Err(e) => {
            return Err(e);
        },
    };
    proof {
        assert(q * (num_dof * dim) == q * num_dof * dim) by (nonlinear_arith);
        let c = family.deriv_comps(dim as int);
        assert(q * (num_dof * c) == q * num_dof * c) by (nonlinear_arith);
        lemma_mul_le(q as int, q as int, 1, num_dof * dim);
        lemma_mul_le(q as int, q as int, 1, num_dof * c);
    }
    Ok(VectorTables { family, dim, num_dof, num_qpoints: q, q_ref, weights, interp, deriv })
}

// ── adjointness ─────────────────────────────────────────────────────────────

/// Entry `(k, j)` of the matrix that a table gives on one element.
spec fn table_matrix<T: Real>(table: Seq<T>, comps: int, nd: int, dim: int) -> spec_fn(
    int,
    int,
) -> T {
    |k: int, j: int|
        if j % dim == 0 {
            table[(k / comps * nd + j / dim) * comps + k % comps]
        } else {
            T::zero_val()
        }
}

/// The two directions of a table are adjoint on one element.
proof fn lemma_table_adjoint<T: Real>(table: Seq<T>, comps: int, nq: int, nd: int, dim: int)
    requires
        exact_ring::<T>(),
        0 < comps,
        0 <= nq,
        0 <= nd,
        0 < dim,
    ensures
        adjoint(
            table_image(table, comps, nq, nd, dim, false),
            table_image(table, comps, nq, nd, dim, true),
            nd * dim,
            nq * comps,
        ),
{
    lemma_mul_le(nd, nd, 0, dim);
    lemma_mul_le(nq, nq, 0, comps);
    let f = table_image(table, comps, nq, nd, dim, false);
    let g = table_image(table, comps, nq, nd, dim, true);
    let a = table_matrix(table, comps, nd, dim);
    assert forall|x: Seq<T>, y: Seq<T>|
        #![trigger f(x), g(y)]
        x.len() == nd * dim && y.len() == nq * comps implies inner(f(x), y) == inner(x, g(y)) by {
        assert forall|k: int| 0 <= k < nq * comps implies #[trigger] f(x)[k] == sum(
            nd * dim,
            row_terms(a, x, k),
        ) by {
            let (r, t) = (
                row_terms(a, x, k),
                field_terms(table, comps, nd, dim, x, k / comps, k % comps),
            );
            assert forall|j: int| 0 <= j < nd * dim && j % dim != 0 implies #[trigger] r(j)
                == T::zero_val() by {
                lemma_times_zero(x[j]);
            }
            assert forall|dof: int| 0 <= dof < nd implies r(dof * dim + 0) == #[trigger] t(dof) by {
                lemma_flat(dof, nd, 0, dim);
            }
            lemma_sum_stride(nd, dim, 0, r, t);
        }
        assert forall|j: int| 0 <= j < nd * dim implies #[trigger] g(y)[j] == sum(
            nq * comps,
            col_terms(a, y, j),
        ) by {
            let c = col_terms(a, y, j);
            if j % dim == 0 {
                let t = moment_terms(table, comps, nd, y, j / dim);
                lemma_sum_ext(nq * comps, c, t);
                lemma_plus_zero(sum(nq * comps, t));
            } else {
                assert forall|k: int| 0 <= k < nq * comps implies #[trigger] c(k)
                    == T::zero_val() by {
                    lemma_times_zero(y[k]);
                }
                lemma_sum_zero(nq * comps, c);
            }
        }
        lemma_matrix_adjoint(a, x, y, f(x), g(y));
    }
}

/// Forward and transposed application are adjoint in exact arithmetic: evaluating a field and
/// taking its inner product with `w` is the same as taking the inner product of the coefficients
/// with the moments of `w`.
pub proof fn law_vector_basis_adjoint<T: Real>(
    view: VectorView<T>,
    num_elem: int,
    eval_mode: EvalMode,
    u: Seq<T>,
    w: Seq<T>,
    v: Seq<T>,
    z: Seq<T>,
)
    requires
        exact_ring::<T>(),
        view.valid(),
        view.has_mode(eval_mode),
        0 <= num_elem,
        u.len() == num_elem * view.nodal_len(),
        w.len() == num_elem * view.point_len(eval_mode),
        v.len() == w.len(),
        z.len() == u.len(),
    ensures
        inner(view.applied(num_elem, false, eval_mode, u, v), w) == inner(
            u,
            view.applied(num_elem, true, eval_mode, w, z),
        ),
{
    let (nd, nq, dim) = (view.num_dof as int, view.num_qpoints as int, view.dim as int);
    let comps = view.mode_comps(eval_mode);
    lemma_table_adjoint(view.table(eval_mode), comps, nq, nd, dim);
    lemma_mul_le(nd, nd, 0, dim);
    lemma_mul_le(nq, nq, 0, comps);
    lemma_adjoint_batched(
        view.image(eval_mode, false),
        view.image(eval_mode, true),
        num_elem,
        nd * dim,
        nq * comps,
        u,
        w,
    );
}

/// The transposed weight mode is the transposed interpolation.
pub proof fn law_vector_weight_transpose<T: Real>(
    view: VectorView<T>,
    num_elem: int,
    u: Seq<T>,
    v: Seq<T>,
)
    ensures
        view.applied(num_elem, true, EvalMode::Weight, u, v) == view.applied(
            num_elem,
            true,
            EvalMode::Interp,
            u,
            v,
        ),
        view.refusal(num_elem, true, EvalMode::Weight, u.len(), v.len()) == view.refusal(
            num_elem,
            true,
            EvalMode::Interp,
            u.len(),
            v.len(),
        ),
{
}

/// Of the entries of a degree of freedom only the first is read.
pub proof fn law_first_entries_are_read<T: Real>(
    view: VectorView<T>,
    eval_mode: EvalMode,
    u: Seq<T>,
    v: Seq<T>,
)
    requires
        forall|dof: int|
            0 <= dof < view.num_dof ==> #[trigger] u[dof * view.dim] == v[dof * view.dim],
    ensures
        view.image(eval_mode, false)(u) == view.image(eval_mode, false)(v),
{
    let (nd, nq, dim) = (view.num_dof as int, view.num_qpoints as int, view.dim as int);
    let (table, comps) = (view.table(eval_mode), view.mode_comps(eval_mode));
    let (a, b) = (view.image(eval_mode, false)(u), view.image(eval_mode, false)(v));
    assert forall|k: int| 0 <= k < nq * comps implies #[trigger] a[k] == b[k] by {
        let f = field_terms(table, comps, nd, dim, u, k / comps, k % comps);
        let g = field_terms(table, comps, nd, dim, v, k / comps, k % comps);
        assert forall|dof: int| 0 <= dof < nd implies #[trigger] f(dof) == g(dof) by {
            assert(u[dof * view.dim] == v[dof * view.dim]);
        }
        lemma_sum_ext(nd, f, g);
    }
    assert(a =~= b);
}

/// Of the entries of a degree of freedom the transpose fills the first; the others become zero.
pub proof fn law_other_entries_become_zero<T: Real>(
    view: VectorView<T>,
    eval_mode: EvalMode,
    w: Seq<T>,
    dof: int,
    d: int,
)
    requires
        0 <= dof < view.num_dof,
        1 <= d < view.dim,
    ensures
        view.image(eval_mode, true)(w)[dof * view.dim + d] == T::zero_val(),
{
    lemma_flat(dof, view.num_dof as int, d, view.dim as int);
}

} // verus!
