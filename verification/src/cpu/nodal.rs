//! Evaluation modes shared by the nodal (H1) bases.
//!
//! A nodal basis supplies interpolation and gradient on one element. Weights, divergence and curl,
//! the transposed modes, the batching and the size checks are the same for all of them.

use vstd::prelude::*;

#[allow(unused_imports)]
use crate::cpu::batch::{apply_batch, batched, ElementMap};
use crate::enums::EvalMode;
use crate::error::{ErrorKind, ReedError, ReedResult};
#[allow(unused_imports)]
use crate::index::{lemma_flat, lemma_split};
use crate::scalar::Real;
#[allow(unused_imports)]
use crate::scalar::sum;
use crate::text::Message;
#[allow(unused_imports)]
use crate::text::decimal;

verus! {

/// The nodal bases, which differ in how they report errors.
#[derive(Debug, Clone, Copy, PartialEq, Eq, Structural)]
pub enum Family {
    Lagrange,
    Simplex,
    Prism,
    Pyramid,
}

/// Sizes of a nodal basis.
#[derive(Debug, Clone, Copy, PartialEq, Eq, Structural)]
pub struct NodalShape {
    pub dim: usize,
    pub ncomp: usize,
    pub num_dof: usize,
    pub num_qpoints: usize,
}

impl NodalShape {
    /// Gradient entries per quadrature point.
    pub open spec fn qcomp(self) -> int {
        self.ncomp * self.dim
    }

    /// Curl entries per quadrature point.
    pub open spec fn curl_comps(self) -> int {
        if self.dim == 2 {
            1
        } else {
            3
        }
    }

    /// Length of an element's nodal values.
    pub open spec fn nodal_len(self) -> int {
        self.num_dof * self.ncomp
    }

    /// Length of an element's values at quadrature points.
    pub open spec fn point_len(self, eval_mode: EvalMode) -> int {
        match eval_mode {
            EvalMode::Grad => self.num_qpoints * self.qcomp(),
            EvalMode::Div => self.num_qpoints as int,
            EvalMode::Curl => self.num_qpoints * self.curl_comps(),
            _ => self.num_qpoints * self.ncomp,
        }
    }

    /// Length of an element's input.
    pub open spec fn in_len(self, eval_mode: EvalMode, transpose: bool) -> int {
        if transpose {
            self.point_len(eval_mode)
        } else {
            self.nodal_len()
        }
    }

    /// Length of an element's output.
    pub open spec fn out_len(self, eval_mode: EvalMode, transpose: bool) -> int {
        if transpose {
            self.nodal_len()
        } else {
            self.point_len(eval_mode)
        }
    }

    /// The mode has a meaning for this number of components.
    pub open spec fn has_mode(self, eval_mode: EvalMode) -> bool {
        match eval_mode {
            EvalMode::Interp | EvalMode::Grad => true,
            EvalMode::Div => self.ncomp == self.dim,
            EvalMode::Curl => (self.dim == 2 && self.ncomp == 2) || (self.dim == 3 && self.ncomp
                == 3),
            _ => false,
        }
    }
}

// ── divergence and curl stencils ────────────────────────────────────────────

/// Diagonal entries of the gradient at point `i`.
pub open spec fn diagonal<T: Real>(dim: int, g: Seq<T>, i: int) -> spec_fn(int) -> T {
    |d: int| g[i * (dim * dim) + (d * dim + d)]
}

/// Divergence at every point: the sum of the diagonal of the gradient.
pub open spec fn trace<T: Real>(dim: int, nq: int, g: Seq<T>) -> Seq<T> {
    Seq::new(nq as nat, |i: int| sum(dim, diagonal(dim, g, i)))
}

/// The scalar at every point on the diagonal of a gradient, zero elsewhere.
pub open spec fn spread<T: Real>(dim: int, nq: int, w: Seq<T>) -> Seq<T> {
    Seq::new(
        (nq * (dim * dim)) as nat,
        |k: int|
            if k % (dim * dim) / dim == k % (dim * dim) % dim {
                w[k / (dim * dim)]
            } else {
                T::zero_val()
            },
    )
}

/// Plane curl at every point: `∂u₁/∂x₀ − ∂u₀/∂x₁`.
pub open spec fn curl2<T: Real>(nq: int, g: Seq<T>) -> Seq<T> {
    Seq::new(nq as nat, |i: int| g[i * 4 + 2].minus(g[i * 4 + 1]))
}

/// The transpose of [`curl2`].
pub open spec fn curl2_transposed<T: Real>(nq: int, w: Seq<T>) -> Seq<T> {
    Seq::new(
        (nq * 4) as nat,
        |k: int|
            if k % 4 == 1 {
                T::zero_val().minus(w[k / 4])
            } else if k % 4 == 2 {
                T::zero_val().plus(w[k / 4])
            } else {
                T::zero_val()
            },
    )
}

/// Curl in space at every point.
pub open spec fn curl3<T: Real>(nq: int, g: Seq<T>) -> Seq<T> {
    Seq::new(
        (nq * 3) as nat,
        |k: int|
            if k % 3 == 0 {
                g[k / 3 * 9 + 7].minus(g[k / 3 * 9 + 5])
            } else if k % 3 == 1 {
                g[k / 3 * 9 + 2].minus(g[k / 3 * 9 + 6])
            } else {
                g[k / 3 * 9 + 3].minus(g[k / 3 * 9 + 1])
            },
    )
}

/// The transpose of [`curl3`].
pub open spec fn curl3_transposed<T: Real>(nq: int, w: Seq<T>) -> Seq<T> {
    Seq::new(
        (nq * 9) as nat,
        |k: int|
            {
                let z = T::zero_val();
                let i = k / 9;
                if k % 9 == 7 {
                    z.plus(w[i * 3])
                } else if k % 9 == 5 {
                    z.minus(w[i * 3])
                } else if k % 9 == 2 {
                    z.plus(w[i * 3 + 1])
                } else if k % 9 == 6 {
                    z.minus(w[i * 3 + 1])
                } else if k % 9 == 3 {
                    z.plus(w[i * 3 + 2])
                } else if k % 9 == 1 {
                    z.minus(w[i * 3 + 2])
                } else {
                    z
                }
            },
    )
}

/// Computes [`trace`].
pub fn trace_of<T: Real>(dim: usize, nq: usize, g: &Vec<T>) -> (r: Vec<T>)
    requires
        g@.len() == nq * (dim * dim),
        g@.len() <= usize::MAX,
        dim * dim <= usize::MAX,
    ensures
        r@ == trace(dim as int, nq as int, g@),
{
    let mut r: Vec<T> = Vec::new();
    for i in 0..nq
        invariant
            g@.len() == nq * (dim * dim),
            g@.len() <= usize::MAX,
            dim * dim <= usize::MAX,
            r@.len() == i,
            forall|j: int|
                0 <= j < i ==> #[trigger] r@[j] == trace(dim as int, nq as int, g@)[j],
    {
        let mut s = T::zero();
        for d in 0..dim
            invariant
                i < nq,
                g@.len() == nq * (dim * dim),
                g@.len() <= usize::MAX,
                dim * dim <= usize::MAX,
                s == sum(d as int, diagonal(dim as int, g@, i as int)),
        {
            proof {
                lemma_flat(d as int, dim as int, d as int, dim as int);
                lemma_flat(i as int, nq as int, d * dim + d, dim * dim);
                lemma_flat(i as int, nq as int, 0, dim * dim);
                assert(0 <= d * dim) by (nonlinear_arith)
                    requires
                        0 <= d,
                        0 <= dim,
                ;
            }
            s = s.add(g[i * (dim * dim) + (d * dim + d)]);
        }
        r.push(s);
    }
    assert(r@ =~= trace(dim as int, nq as int, g@));
    r
}

/// Computes [`spread`].
pub fn spread_of<T: Real>(dim: usize, nq: usize, w: &[T]) -> (r: Vec<T>)
    requires
        w@.len() == nq,
        dim * dim <= usize::MAX,
        nq * (dim * dim) <= usize::MAX,
        dim > 0,
    ensures
        r@ == spread(dim as int, nq as int, w@),
{
    let mut r: Vec<T> = Vec::new();
    let total: usize = nq * (dim * dim);
    for k in 0..total
        invariant
            w@.len() == nq,
            dim * dim <= usize::MAX,
            total == nq * (dim * dim),
            dim > 0,
            r@.len() == k,
            forall|j: int|
                0 <= j < k ==> #[trigger] r@[j] == spread(dim as int, nq as int, w@)[j],
    {
        proof {
            assert(0 <= dim * dim) by (nonlinear_arith)
                requires
                    0 <= dim,
            ;
            lemma_split(k as int, nq as int, dim * dim);
        }
        let c: usize = k % (dim * dim);
        if c / dim == c % dim {
            r.push(w[k / (dim * dim)]);
        } else {
            r.push(T::zero());
        }
    }
    assert(r@ =~= spread(dim as int, nq as int, w@));
    r
}

/// Computes [`curl2`].
pub fn curl2_of<T: Real>(nq: usize, g: &Vec<T>) -> (r: Vec<T>)
    requires
        g@.len() == nq * 4,
        g@.len() <= usize::MAX,
    ensures
        r@ == curl2(nq as int, g@),
{
    let mut r: Vec<T> = Vec::new();
    for i in 0..nq
        invariant
            g@.len() == nq * 4,
            g@.len() <= usize::MAX,
            r@.len() == i,
            forall|j: int| 0 <= j < i ==> #[trigger] r@[j] == curl2(nq as int, g@)[j],
    {
        r.push(g[i * 4 + 2].sub(g[i * 4 + 1]));
    }
    assert(r@ =~= curl2(nq as int, g@));
    r
}

/// Computes [`curl2_transposed`].
pub fn curl2_transposed_of<T: Real>(nq: usize, w: &[T]) -> (r: Vec<T>)
    requires
        w@.len() == nq,
        nq * 4 <= usize::MAX,
    ensures
        r@ == curl2_transposed(nq as int, w@),
{
    let mut r: Vec<T> = Vec::new();
    for k in 0..nq * 4
        invariant
            w@.len() == nq,
            nq * 4 <= usize::MAX,
            r@.len() == k,
            forall|j: int| 0 <= j < k ==> #[trigger] r@[j] == curl2_transposed(nq as int, w@)[j],
    {
        let c: usize = k % 4;
        if c == 1 {
            r.push(T::zero().sub(w[k / 4]));
        } else if c == 2 {
            r.push(T::zero().add(w[k / 4]));
        } else {
            r.push(T::zero());
        }
    }
    assert(r@ =~= curl2_transposed(nq as int, w@));
    r
}

/// Computes [`curl3`].
pub fn curl3_of<T: Real>(nq: usize, g: &Vec<T>) -> (r: Vec<T>)
    requires
        g@.len() == nq * 9,
        g@.len() <= usize::MAX,
    ensures
        r@ == curl3(nq as int, g@),
{
    let mut r: Vec<T> = Vec::new();
    for k in 0..nq * 3
        invariant
            g@.len() == nq * 9,
            g@.len() <= usize::MAX,
            r@.len() == k,
            forall|j: int| 0 <= j < k ==> #[trigger] r@[j] == curl3(nq as int, g@)[j],
    {
        let base: usize = k / 3 * 9;
        let c: usize = k % 3;
        if c == 0 {
            r.push(g[base + 7].sub(g[base + 5]));
        } else if c == 1 {
            r.push(g[base + 2].sub(g[base + 6]));
        } else {
            r.push(g[base + 3].sub(g[base + 1]));
        }
    }
    assert(r@ =~= curl3(nq as int, g@));
    r
}

/// Computes [`curl3_transposed`].
pub fn curl3_transposed_of<T: Real>(nq: usize, w: &[T]) -> (r: Vec<T>)
    requires
        w@.len() == nq * 3,
        nq * 9 <= usize::MAX,
    ensures
        r@ == curl3_transposed(nq as int, w@),
{
    let mut r: Vec<T> = Vec::new();
    for k in 0..nq * 9
        invariant
            w@.len() == nq * 3,
            nq * 9 <= usize::MAX,
            r@.len() == k,
            forall|j: int| 0 <= j < k ==> #[trigger] r@[j] == curl3_transposed(nq as int, w@)[j],
    {
        let i: usize = k / 9;
        let c: usize = k % 9;
        let z = T::zero();
        let x = if c == 7 {
            z.add(w[i * 3])
        } else if c == 5 {
            z.sub(w[i * 3])
        } else if c == 2 {
            z.add(w[i * 3 + 1])
        } else if c == 6 {
            z.sub(w[i * 3 + 1])
        } else if c == 3 {
            z.add(w[i * 3 + 2])
        } else if c == 1 {
            z.sub(w[i * 3 + 2])
        } else {
            z
        };
        r.push(x);
    }
    assert(r@ =~= curl3_transposed(nq as int, w@));
    r
}

// ── kernels ─────────────────────────────────────────────────────────────────

/// A nodal basis on one element.
pub trait NodalKernel<T: Real> {
    /// The basis is valid.
    spec fn ready(&self) -> bool;

    /// Which basis this is.
    spec fn family_of(&self) -> Family;

    /// Sizes.
    spec fn shape_of(&self) -> NodalShape;

    /// Quadrature weights.
    spec fn weight_table(&self) -> Seq<T>;

    /// Interpolation of an element's nodal values to its points, or its transpose.
    spec fn interp_image(&self, transpose: bool) -> spec_fn(Seq<T>) -> Seq<T>;

    /// Gradient of an element's nodal values at its points, or its transpose.
    spec fn grad_image(&self, transpose: bool) -> spec_fn(Seq<T>) -> Seq<T>;

    fn family(&self) -> (f: Family)
        ensures
            f == self.family_of(),
    ;

    fn shape(&self) -> (s: NodalShape)
        requires
            self.ready(),
        ensures
            s == self.shape_of(),
            s.dim > 0,
            s.dim <= 3,
            self.weight_table().len() == s.num_qpoints,
    ;

    fn weight_slice(&self) -> (w: &[T])
        ensures
            w@ == self.weight_table(),
    ;

    /// Interpolates one element, or applies the transpose.
    fn interp_elem(&self, transpose: bool, u: &[T]) -> (r: Vec<T>)
        requires
            self.ready(),
            u@.len() == self.shape_of().in_len(EvalMode::Interp, transpose),
            self.shape_of().out_len(EvalMode::Interp, transpose) <= usize::MAX,
        ensures
            r@ == (self.interp_image(transpose))(u@),
            r@.len() == self.shape_of().out_len(EvalMode::Interp, transpose),
    ;

    /// Differentiates one element, or applies the transpose.
    fn grad_elem(&self, transpose: bool, u: &[T]) -> (r: Vec<T>)
        requires
            self.ready(),
            u@.len() == self.shape_of().in_len(EvalMode::Grad, transpose),
            self.shape_of().out_len(EvalMode::Grad, transpose) <= usize::MAX,
            self.shape_of().qcomp() <= usize::MAX,
        ensures
            r@ == (self.grad_image(transpose))(u@),
            r@.len() == self.shape_of().out_len(EvalMode::Grad, transpose),
    ;
}

/// Image of one element under a mode that reads nodal or point values, given the images under
/// interpolation and gradient in the same direction.
pub open spec fn nodal_image_of<T: Real>(
    s: NodalShape,
    interp: spec_fn(Seq<T>) -> Seq<T>,
    grad: spec_fn(Seq<T>) -> Seq<T>,
    eval_mode: EvalMode,
    transpose: bool,
) -> spec_fn(Seq<T>) -> Seq<T> {
    let (dim, nq) = (s.dim as int, s.num_qpoints as int);
    match eval_mode {
        EvalMode::Grad => grad,
        EvalMode::Div => if transpose {
            |u: Seq<T>| grad(spread(dim, nq, u))
        } else {
            |u: Seq<T>| trace(dim, nq, grad(u))
        },
        EvalMode::Curl => if dim == 2 {
            if transpose {
                |u: Seq<T>| grad(curl2_transposed(nq, u))
            } else {
                |u: Seq<T>| curl2(nq, grad(u))
            }
        } else {
            if transpose {
                |u: Seq<T>| grad(curl3_transposed(nq, u))
            } else {
                |u: Seq<T>| curl3(nq, grad(u))
            }
        },
        _ => interp,
    }
}

/// Image of one element under a mode that reads nodal or point values.
pub open spec fn nodal_image<T: Real, K: NodalKernel<T>>(
    k: &K,
    eval_mode: EvalMode,
    transpose: bool,
) -> spec_fn(Seq<T>) -> Seq<T> {
    nodal_image_of(
        k.shape_of(),
        k.interp_image(transpose),
        k.grad_image(transpose),
        eval_mode,
        transpose,
    )
}

struct NodalMap<'a, K> {
    kernel: &'a K,
}

impl<'a, T: Real, K: NodalKernel<T>> ElementMap<T> for NodalMap<'a, K> {
    closed spec fn valid(&self) -> bool {
        self.kernel.ready()
    }

    closed spec fn has_mode(&self, eval_mode: EvalMode, transpose: bool) -> bool {
        let s = self.kernel.shape_of();
        &&& s.has_mode(eval_mode)
        &&& eval_mode == EvalMode::Grad ==> s.qcomp() <= usize::MAX
        &&& eval_mode == EvalMode::Div || eval_mode == EvalMode::Curl ==> s.num_qpoints * s.qcomp()
            <= usize::MAX
    }

    closed spec fn in_len(&self, eval_mode: EvalMode, transpose: bool) -> int {
        self.kernel.shape_of().in_len(eval_mode, transpose)
    }

    closed spec fn out_len(&self, eval_mode: EvalMode, transpose: bool) -> int {
        self.kernel.shape_of().out_len(eval_mode, transpose)
    }

    closed spec fn image(&self, eval_mode: EvalMode, transpose: bool) -> spec_fn(Seq<T>) -> Seq<T> {
        nodal_image(self.kernel, eval_mode, transpose)
    }

    fn compute(&self, eval_mode: EvalMode, transpose: bool, u: &[T]) -> (r: Vec<T>) {
        let s = self.kernel.shape();
        let nq: usize = s.num_qpoints;
        match eval_mode {
            EvalMode::Grad => self.kernel.grad_elem(transpose, u),
            EvalMode::Div => {
                proof {
                    lemma_square_fits(s.dim as int);
                }
                if transpose {
                    let g = spread_of(s.dim, nq, u);
                    self.kernel.grad_elem(true, g.as_slice())
                } else {
                    let g = self.kernel.grad_elem(false, u);
                    trace_of(s.dim, nq, &g)
                }
            },
            EvalMode::Curl => {
                if s.dim == 2 {
                    if transpose {
                        let g = curl2_transposed_of(nq, u);
                        self.kernel.grad_elem(true, g.as_slice())
                    } else {
                        let g = self.kernel.grad_elem(false, u);
                        curl2_of(nq, &g)
                    }
                } else {
                    assert(s.ncomp * s.dim == 9) by (nonlinear_arith)
                        requires
                            s.ncomp == 3,
                            s.dim == 3,
                    ;
                    if transpose {
                        let g = curl3_transposed_of(nq, u);
                        self.kernel.grad_elem(true, g.as_slice())
                    } else {
                        let g = self.kernel.grad_elem(false, u);
                        curl3_of(nq, &g)
                    }
                }
            },
            _ => self.kernel.interp_elem(transpose, u),
        }
    }
}

/// Squares of dimensions are small.
proof fn lemma_square_fits(d: int)
    requires
        0 <= d <= 3,
    ensures
        0 <= d * d <= 9,
{
    assert(0 <= d * d <= 9) by (nonlinear_arith)
        requires
            0 <= d <= 3,
    ;
}

// ── messages ────────────────────────────────────────────────────────────────

impl Family {
    /// The name of the basis in messages.
    pub open spec fn title(self) -> Seq<char> {
        match self {
            Family::Lagrange => "LagrangeBasis"@,
            Family::Simplex => "SimplexBasis"@,
            Family::Prism => "PrismBasis"@,
            Family::Pyramid => "PyramidBasis"@,
        }
    }

    fn title_text(self) -> (s: &'static str)
        ensures
            s@ == self.title(),
    {
        match self {
            Family::Lagrange => "LagrangeBasis",
            Family::Simplex => "SimplexBasis",
            Family::Prism => "PrismBasis",
            Family::Pyramid => "PyramidBasis",
        }
    }

    /// Size errors of this basis name the lengths.
    pub open spec fn detailed(self, eval_mode: EvalMode) -> bool {
        match self {
            Family::Lagrange | Family::Simplex => true,
            Family::Prism => eval_mode != EvalMode::Curl,
            Family::Pyramid => eval_mode != EvalMode::Curl && eval_mode != EvalMode::Div,
        }
    }
}

/// How messages call a mode and direction.
pub open spec fn mode_label(eval_mode: EvalMode, transpose: bool) -> Seq<char> {
    match eval_mode {
        EvalMode::Grad => "grad"@,
        EvalMode::Div => if transpose {
            "div transpose"@
        } else {
            "div"@
        },
        EvalMode::Curl => if transpose {
            "curl transpose"@
        } else {
            "curl"@
        },
        _ => "interp"@,
    }
}

fn mode_label_text(eval_mode: EvalMode, transpose: bool) -> (s: &'static str)
    ensures
        s@ == mode_label(eval_mode, transpose),
{
    match eval_mode {
        EvalMode::Grad => "grad",
        EvalMode::Div => if transpose {
            "div transpose"
        } else {
            "div"
        },
        EvalMode::Curl => if transpose {
            "curl transpose"
        } else {
            "curl"
        },
        _ => "interp",
    }
}

/// The message that reports vectors of the wrong length.
pub open spec fn size_message(
    family: Family,
    eval_mode: EvalMode,
    transpose: bool,
    ulen: nat,
    uwant: nat,
    vlen: nat,
    vwant: nat,
) -> Seq<char> {
    let label = mode_label(eval_mode, transpose);
    if family == Family::Lagrange {
        label + " apply size mismatch: input "@ + decimal(ulen) + ", expected "@ + decimal(uwant)
            + "; output "@ + decimal(vlen) + ", expected "@ + decimal(vwant)
    } else if family == Family::Simplex {
        "SimplexBasis "@ + label + " size mismatch: input "@ + decimal(ulen) + " (expected "@
            + decimal(uwant) + "), output "@ + decimal(vlen) + " (expected "@ + decimal(vwant)
            + ")"@
    } else if family.detailed(eval_mode) {
        family.title() + " "@ + label + " size mismatch: input "@ + decimal(ulen) + ", expected "@
            + decimal(uwant) + "; output "@ + decimal(vlen) + ", expected "@ + decimal(vwant)
    } else {
        family.title() + " "@ + label + " size mismatch"@
    }
}

fn size_error(
    family: Family,
    eval_mode: EvalMode,
    transpose: bool,
    ulen: usize,
    uwant: usize,
    vlen: usize,
    vwant: usize,
) -> (e: ReedError)
    ensures
        e@ == (
            ErrorKind::Basis,
            size_message(
                family,
                eval_mode,
                transpose,
                ulen as nat,
                uwant as nat,
                vlen as nat,
                vwant as nat,
            ),
        ),
{
    let label = mode_label_text(eval_mode, transpose);
    let m = match family {
        Family::Lagrange => Message::new(label).text(" apply size mismatch: input ").num(
            ulen,
        ).text(", expected ").num(uwant).text("; output ").num(vlen).text(", expected ").num(vwant),
        Family::Simplex => Message::new("SimplexBasis ").text(label).text(
            " size mismatch: input ",
        ).num(ulen).text(" (expected ").num(uwant).text("), output ").num(vlen).text(
            " (expected ",
        ).num(vwant).text(")"),
        _ => {
            let short = eval_mode == EvalMode::Curl || (family == Family::Pyramid && eval_mode
                == EvalMode::Div);
            let head = Message::new(family.title_text()).text(" ").text(label);
            if short {
                head.text(" size mismatch")
            } else {
                head.text(" size mismatch: input ").num(ulen).text(", expected ").num(uwant).text(
                    "; output ",
                ).num(vlen).text(", expected ").num(vwant)
            }
        },
    };
    ReedError::Basis(m.done())
}

/// The message that reports a weight vector of the wrong length.
pub open spec fn weight_message(family: Family, vlen: nat, want: nat) -> Seq<char> {
    let head = if family == Family::Lagrange || family == Family::Simplex {
        "weight output length "@
    } else {
        family.title() + " weight output length "@
    };
    head + decimal(vlen) + " != expected "@ + decimal(want)
}

fn weight_error(family: Family, vlen: usize, want: usize) -> (e: ReedError)
    ensures
        e@ == (ErrorKind::Basis, weight_message(family, vlen as nat, want as nat)),
{
    let head = match family {
        Family::Lagrange | Family::Simplex => Message::new("weight output length "),
        _ => Message::new(family.title_text()).text(" weight output length "),
    };
    ReedError::Basis(head.num(vlen).text(" != expected ").num(want).done())
}

/// The message that reports a mode the number of components rules out.
pub open spec fn component_message(family: Family, eval_mode: EvalMode) -> Seq<char> {
    if eval_mode == EvalMode::Div {
        if family == Family::Lagrange {
            "EvalMode::Div requires ncomp == dim (vector field with one component per spatial axis)"@
        } else {
            "EvalMode::Div requires ncomp == dim for "@ + family.title()
        }
    } else {
        match family {
            Family::Lagrange => "EvalMode::Curl requires (dim, ncomp) = (2, 2) or (3, 3)"@,
            Family::Simplex => "EvalMode::Curl requires (dim, ncomp) = (2, 2) or (3, 3) for SimplexBasis"@,
            _ => "EvalMode::Curl requires (dim, ncomp) = (3, 3) for "@ + family.title(),
        }
    }
}

fn component_error(family: Family, eval_mode: EvalMode) -> (e: ReedError)
    ensures
        e@ == (ErrorKind::Basis, component_message(family, eval_mode)),
{
    let m = if eval_mode == EvalMode::Div {
        match family {
            Family::Lagrange => Message::new(
                "EvalMode::Div requires ncomp == dim (vector field with one component per spatial axis)",
            ),
            _ => Message::new("EvalMode::Div requires ncomp == dim for ").text(family.title_text()),
        }
    } else {
        match family {
            Family::Lagrange => Message::new(
                "EvalMode::Curl requires (dim, ncomp) = (2, 2) or (3, 3)",
            ),
            Family::Simplex => Message::new(
                "EvalMode::Curl requires (dim, ncomp) = (2, 2) or (3, 3) for SimplexBasis",
            ),
            _ => Message::new("EvalMode::Curl requires (dim, ncomp) = (3, 3) for ").text(
                family.title_text(),
            ),
        }
    };
    ReedError::Basis(m.done())
}

/// The message that reports a mode nodal bases do not have.
pub open spec fn mode_message(family: Family, eval_mode: EvalMode) -> Seq<char> {
    if family == Family::Lagrange {
        "eval mode "@ + eval_mode.name_text() + " not implemented in CPU basis"@
    } else {
        family.title() + ": eval mode "@ + eval_mode.name_text() + " not implemented"@
    }
}

fn mode_error(family: Family, eval_mode: EvalMode) -> (e: ReedError)
    ensures
        e@ == (ErrorKind::Basis, mode_message(family, eval_mode)),
{
    let m = match family {
        Family::Lagrange => Message::new("eval mode ").text(eval_mode.name()).text(
            " not implemented in CPU basis",
        ),
        _ => Message::new(family.title_text()).text(": eval mode ").text(eval_mode.name()).text(
            " not implemented",
        ),
    };
    ReedError::Basis(m.done())
}

// ── application ─────────────────────────────────────────────────────────────

/// The mode whose element map an application uses: the transposed weight mode is transposed
/// interpolation.
pub open spec fn effective_mode(eval_mode: EvalMode) -> EvalMode {
    if eval_mode == EvalMode::Weight {
        EvalMode::Interp
    } else {
        eval_mode
    }
}

/// Sizes of a batch stay in machine range, and an application is defined on it.
///
/// A batch whose sizes are right is one an application is defined on when there are at least one
/// component and one quadrature point; the tensor-product basis also needs at least one element.
pub open spec fn nodal_admits(
    family: Family,
    s: NodalShape,
    num_elem: int,
    transpose: bool,
    eval_mode: EvalMode,
    ulen: nat,
    vlen: nat,
) -> bool {
    let mode = effective_mode(eval_mode);
    let (m, n) = (s.in_len(mode, transpose), s.out_len(mode, transpose));
    if eval_mode == EvalMode::Weight && !transpose {
        &&& num_elem * s.num_qpoints <= usize::MAX
        &&& vlen == num_elem * s.num_qpoints ==> s.num_qpoints > 0
    } else if !s.has_mode(mode) || (eval_mode == EvalMode::Weight && s.ncomp != 1) {
        true
    } else {
        &&& m <= usize::MAX && n <= usize::MAX
        &&& num_elem * m <= usize::MAX && num_elem * n <= usize::MAX
        &&& mode == EvalMode::Grad ==> s.qcomp() <= usize::MAX
        &&& mode == EvalMode::Div || mode == EvalMode::Curl ==> s.num_qpoints * s.qcomp()
            <= usize::MAX
        &&& ulen == num_elem * m && vlen == num_elem * n ==> s.ncomp > 0 && s.num_qpoints > 0 && (
        family == Family::Lagrange ==> num_elem > 0)
    }
}

/// The error of an application, if it fails.
pub open spec fn nodal_refusal(
    family: Family,
    s: NodalShape,
    num_elem: int,
    transpose: bool,
    eval_mode: EvalMode,
    ulen: nat,
    vlen: nat,
) -> Option<(ErrorKind, Seq<char>)> {
    let mode = effective_mode(eval_mode);
    let (m, n) = (s.in_len(mode, transpose), s.out_len(mode, transpose));
    let refuse = |text: Seq<char>| Some((ErrorKind::Basis, text));
    if eval_mode == EvalMode::Weight && !transpose {
        if vlen != num_elem * s.num_qpoints {
            refuse(weight_message(family, vlen, (num_elem * s.num_qpoints) as nat))
        } else {
            None
        }
    } else if eval_mode == EvalMode::Weight && s.ncomp != 1 {
        refuse("EvalMode::Weight transpose requires basis.num_comp() == 1"@)
    } else if (mode == EvalMode::Div || mode == EvalMode::Curl) && !s.has_mode(mode) {
        refuse(component_message(family, mode))
    } else if !s.has_mode(mode) {
        refuse(mode_message(family, eval_mode))
    } else if ulen != num_elem * m || vlen != num_elem * n {
        refuse(
            size_message(
                family,
                mode,
                transpose,
                ulen,
                (num_elem * m) as nat,
                vlen,
                (num_elem * n) as nat,
            ),
        )
    } else {
        None
    }
}

/// The output vector after an application, given the element map of the effective mode.
pub open spec fn nodal_applied_of<T: Real>(
    family: Family,
    s: NodalShape,
    weights: Seq<T>,
    image: spec_fn(Seq<T>) -> Seq<T>,
    num_elem: int,
    transpose: bool,
    eval_mode: EvalMode,
    u: Seq<T>,
    v: Seq<T>,
) -> Seq<T> {
    let mode = effective_mode(eval_mode);
    let stop = nodal_refusal(family, s, num_elem, transpose, eval_mode, u.len(), v.len());
    if stop is Some {
        v
    } else if eval_mode == EvalMode::Weight && !transpose {
        Seq::new(v.len(), |i: int| weights[i % (s.num_qpoints as int)])
    } else {
        batched(image, num_elem, s.in_len(mode, transpose), s.out_len(mode, transpose), u)
    }
}

/// The output vector after an application.
pub open spec fn nodal_applied<T: Real, K: NodalKernel<T>>(
    k: &K,
    num_elem: int,
    transpose: bool,
    eval_mode: EvalMode,
    u: Seq<T>,
    v: Seq<T>,
) -> Seq<T> {
    nodal_applied_of(
        k.family_of(),
        k.shape_of(),
        k.weight_table(),
        nodal_image(k, effective_mode(eval_mode), transpose),
        num_elem,
        transpose,
        eval_mode,
        u,
        v,
    )
}

fn nodal_len(s: &NodalShape) -> (n: usize)
    requires
        s.nodal_len() <= usize::MAX,
    ensures
        n == s.nodal_len(),
{
    s.num_dof * s.ncomp
}

fn point_len(s: &NodalShape, eval_mode: EvalMode) -> (n: usize)
    requires
        s.point_len(eval_mode) <= usize::MAX,
        eval_mode == EvalMode::Grad ==> s.qcomp() <= usize::MAX,
    ensures
        n == s.point_len(eval_mode),
{
    match eval_mode {
        EvalMode::Grad => s.num_qpoints * (s.ncomp * s.dim),
        EvalMode::Div => s.num_qpoints,
        EvalMode::Curl => if s.dim == 2 {
            s.num_qpoints
        } else {
            s.num_qpoints * 3
        },
        _ => s.num_qpoints * s.ncomp,
    }
}

/// Applies a nodal basis to a batch of elements.
pub fn apply_nodal<T: Real, K: NodalKernel<T>>(
    k: &K,
    num_elem: usize,
    transpose: bool,
    eval_mode: EvalMode,
    u: &[T],
    v: &mut [T],
) -> (r: ReedResult<()>)
    requires
        k.ready(),
        nodal_admits(
            k.family_of(),
            k.shape_of(),
            num_elem as int,
            transpose,
            eval_mode,
            u@.len(),
            old(v)@.len(),
        ),
    ensures
        final(v)@ == nodal_applied(k, num_elem as int, transpose, eval_mode, u@, old(v)@),
        final(v)@.len() == old(v)@.len(),
        match nodal_refusal(
            k.family_of(),
            k.shape_of(),
            num_elem as int,
            transpose,
            eval_mode,
            u@.len(),
            old(v)@.len(),
        ) {
            Some(e) => r matches Err(x) && x@ == e,
            None => r is Ok,
        },
{
    let s = k.shape();
    let family = k.family();
    let mut mode = eval_mode;
    match eval_mode {
        EvalMode::Weight => {
            if !transpose {
                let want: usize = num_elem * s.num_qpoints;
                if v.len() != want {
                    return Err(weight_error(family, v.len(), want));
                }
                fill_weights(k.weight_slice(), v);
                return Ok(());
            }
            if s.ncomp != 1 {
                return Err(
                    ReedError::Basis(
                        Message::new(
                            "EvalMode::Weight transpose requires basis.num_comp() == 1",
                        ).done(),
                    ),
                );
            }
            mode = EvalMode::Interp;
        },
        EvalMode::Interp | EvalMode::Grad => {},
        EvalMode::Div => {
            if s.ncomp != s.dim {
                return Err(component_error(family, EvalMode::Div));
            }
        },
        EvalMode::Curl => {
            if !((s.dim == 2 && s.ncomp == 2) || (s.dim == 3 && s.ncomp == 3)) {
                return Err(component_error(family, EvalMode::Curl));
            }
        },
        _ => {
            return Err(mode_error(family, eval_mode));
        },
    }
    let nodal: usize = nodal_len(&s);
    let points: usize = point_len(&s, mode);
    let (in_len, out_len) = if transpose {
        (points, nodal)
    } else {
        (nodal, points)
    };
    let in_size: usize = num_elem * in_len;
    let out_size: usize = num_elem * out_len;
    if u.len() != in_size || v.len() != out_size {
        return Err(size_error(family, mode, transpose, u.len(), in_size, v.len(), out_size));
    }
    apply_batch(&NodalMap { kernel: k }, num_elem, mode, transpose, in_len, out_len, u, v);
    Ok(())
}

/// Repeats the weights over `v`.
pub(crate) fn fill_weights<T: Real>(w: &[T], v: &mut [T])
    requires
        w@.len() > 0 || old(v)@.len() == 0,
    ensures
        final(v)@ == Seq::new(old(v)@.len(), |i: int| w@[i % (w@.len() as int)]),
{
    let n: usize = v.len();
    let m: usize = w.len();
    for i in 0..n
        invariant
            m == w@.len(),
            m > 0 || n == 0,
            n == v@.len(),
            n == old(v)@.len(),
            forall|j: int| 0 <= j < i ==> #[trigger] v@[j] == w@[j % (m as int)],
    {
        v[i] = w[i % m];
    }
    assert(v@ =~= Seq::new(old(v)@.len(), |i: int| w@[i % (w@.len() as int)]));
}

} // verus!
