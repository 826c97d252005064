//! Inverse of tensor-product element operators by fast diagonalization.
//!
//! One eigen-decomposition of a one-dimensional operator diagonalizes the element operator in one,
//! two or three dimensions.

use vstd::prelude::*;

use crate::cpu::batch::{apply_batch, ElementMap};
#[allow(unused_imports)]
use crate::cpu::batch::batched;
#[allow(unused_imports)]
use crate::cpu::composite_operator::zero_values;
use crate::cpu::eigen::{gram_of, jacobi_eigen_symmetric};
#[allow(unused_imports)]
use crate::cpu::eigen::{eigenvalues, eigenvectors, gram};
#[allow(unused_imports)]
use crate::cpu::fdm_inverse::stored_or_added;
use crate::elem_restriction::ElemRestrictionTrait;
use crate::enums::{EvalMode, TransposeMode};
use crate::error::{ErrorKind, ReedError, ReedResult};
#[allow(unused_imports)]
use crate::index::{lemma_flat, lemma_flat3, lemma_mul_le, lemma_split, lemma_split3};
use crate::operator::{
    no_named, FieldBuffer, OperatorAssembleKind, OperatorTrait, OperatorTransposeRequest,
};
#[allow(unused_imports)]
use crate::operator::{no_named_outcome, BufferView, NamedOutcome, NamedSink, Sink};
use crate::scalar::{zeros, Real};
#[allow(unused_imports)]
use crate::scalar::sum;
use crate::text::Message;
#[allow(unused_imports)]
use crate::text::decimal;
#[allow(unused_imports)]
use crate::vector::{Outcome, VectorTrait};

verus! {

/// Sweeps of the eigenvalue solver.
pub const MAX_SWEEPS: usize = 50;

/// The operator whose inverse is applied.
#[derive(Clone, Copy, Debug, PartialEq, Eq, Structural)]
pub enum FdmOperatorKind {
    Mass,
    Stiffness,
}

// ── one-dimensional data ────────────────────────────────────────────────────

/// Eigen-data of the one-dimensional operators. `vectors` holds eigenvectors of the mass matrix
/// one after the other, `mass` its eigenvalues in ascending order, and `stiff` the Rayleigh
/// quotients of the stiffness matrix.
#[verifier::ext_equal]
pub struct EigenData<T> {
    pub vectors: Seq<T>,
    pub mass: Seq<T>,
    pub stiff: Seq<T>,
}

/// Products of entry `i` of a matrix times column `k` of another.
pub open spec fn image_terms<T: Real>(m: Seq<T>, v: Seq<T>, p: int, i: int, k: int) -> spec_fn(
    int,
) -> T {
    |j: int| m[i + j * p].times(v[j + k * p])
}

/// Products of the Rayleigh quotient of column `k`.
pub open spec fn quotient_terms<T: Real>(m: Seq<T>, v: Seq<T>, p: int, k: int) -> spec_fn(int) -> T {
    |i: int| v[i + k * p].times(sum(p, image_terms(m, v, p, i, k)))
}

/// The eigen-data of a one-dimensional basis with tables of values and derivatives.
pub open spec fn eigen_data<T: Real>(
    interp: Seq<T>,
    grad: Seq<T>,
    weights: Seq<T>,
    p: int,
    q: int,
) -> EigenData<T> {
    let mass = gram(interp, weights, p, q);
    let stiff = gram(grad, weights, p, q);
    let v = eigenvectors(mass, p, MAX_SWEEPS as int);
    EigenData {
        vectors: v,
        mass: eigenvalues(mass, p, MAX_SWEEPS as int),
        stiff: Seq::new(p as nat, |k: int| sum(p, quotient_terms(stiff, v, p, k))),
    }
}

/// The arrays of [`EigenData`].
struct EigenArrays<T> {
    vectors: Vec<T>,
    mass: Vec<T>,
    stiff: Vec<T>,
}

impl<T> View for EigenArrays<T> {
    type V = EigenData<T>;

    closed spec fn view(&self) -> EigenData<T> {
        EigenData { vectors: self.vectors@, mass: self.mass@, stiff: self.stiff@ }
    }
}

fn rayleigh<T: Real>(m: &Vec<T>, v: &Vec<T>, p: usize, k: usize) -> (r: T)
    requires
        p * p <= usize::MAX,
        m@.len() == p * p,
        v@.len() == p * p,
        k < p,
    ensures
        r == sum(p as int, quotient_terms(m@, v@, p as int, k as int)),
{
    let mut total = T::zero();
    for i in 0..p
        invariant
            p * p <= usize::MAX,
            m@.len() == p * p,
            v@.len() == p * p,
            k < p,
            total == sum(i as int, quotient_terms(m@, v@, p as int, k as int)),
    {
        let mut s = T::zero();
        for j in 0..p
            invariant
                p * p <= usize::MAX,
                m@.len() == p * p,
                v@.len() == p * p,
                k < p,
                i < p,
                s == sum(j as int, image_terms(m@, v@, p as int, i as int, k as int)),
        {
            proof {
                lemma_flat(j as int, p as int, i as int, p as int);
                lemma_flat(k as int, p as int, j as int, p as int);
                lemma_mul_le(j as int, p as int, p as int, p as int);
                lemma_mul_le(k as int, p as int, p as int, p as int);
            }
            s = s.add(m[i + j * p].mul(v[j + k * p]));
        }
        proof {
            lemma_flat(k as int, p as int, i as int, p as int);
            lemma_mul_le(k as int, p as int, p as int, p as int);
        }
        total = total.add(v[i + k * p].mul(s));
    }
    total
}

fn build_fdm_1d_data<T: Real>(interp: &[T], grad: &[T], weights: &[T], p: usize, q: usize) -> (r:
    EigenArrays<T>)
    requires
        p * p <= usize::MAX,
        p <= i64::MAX,
        q * p <= interp@.len(),
        q * p <= grad@.len(),
        q <= weights@.len(),
    ensures
        r@ == eigen_data(interp@, grad@, weights@, p as int, q as int),
        r@.vectors.len() == p * p,
        r@.mass.len() == p,
        r@.stiff.len() == p,
{
    let mass = gram_of(interp, weights, p, q);
    let stiffness = gram_of(grad, weights, p, q);
    let (vectors, values) = jacobi_eigen_symmetric(mass.as_slice(), p, MAX_SWEEPS);
    let mut stiff: Vec<T> = Vec::new();
    for k in 0..p
        invariant
            p * p <= usize::MAX,
            stiffness@.len() == p * p,
            vectors@.len() == p * p,
            stiff@.len() == k,
            forall|i: int|
                0 <= i < k ==> #[trigger] stiff@[i] == sum(
                    p as int,
                    quotient_terms(stiffness@, vectors@, p as int, i),
                ),
    {
        stiff.push(rayleigh(&stiffness, &vectors, p, k));
    }
    let r = EigenArrays { vectors, mass: values, stiff };
    assert(r@ =~= eigen_data(interp@, grad@, weights@, p as int, q as int));
    r
}

// ── element inverse ─────────────────────────────────────────────────────────

/// The sum of the terms that are kept, from left to right.
pub open spec fn kept_sum<T: Real>(
    n: int,
    keep: spec_fn(int) -> bool,
    f: spec_fn(int) -> T,
) -> T
    decreases n,
{
    if n <= 0 {
        T::zero_val()
    } else if keep(n - 1) {
        kept_sum(n - 1, keep, f).plus(f(n - 1))
    } else {
        kept_sum(n - 1, keep, f)
    }
}

/// Eigenvectors and the eigenvalues by which coefficients are divided.
#[verifier::ext_equal]
pub struct Diagonalizer<T> {
    pub kind: FdmOperatorKind,
    pub p: int,
    pub vectors: Seq<T>,
    pub lambda: Seq<T>,
}

impl<T: Real> Diagonalizer<T> {
    /// Entry `i` of eigenvector `k`.
    pub open spec fn entry(self, i: int, k: int) -> T {
        self.vectors[i + k * self.p]
    }

    /// The denominator of two coefficients.
    pub open spec fn joined(self, a: T, b: T) -> T {
        match self.kind {
            FdmOperatorKind::Mass => a.times(b),
            FdmOperatorKind::Stiffness => a.plus(b),
        }
    }

    // one dimension

    /// Products of coefficient `k` in one dimension.
    pub open spec fn terms1(self, u: Seq<T>, k: int) -> spec_fn(int) -> T {
        |i: int| self.entry(i, k).times(u[i])
    }

    /// Coefficient `k` in one dimension, divided by its eigenvalue.
    pub open spec fn scaled1(self, u: Seq<T>, k: int) -> T {
        sum(self.p, self.terms1(u, k)).over(self.lambda[k])
    }

    /// Shares of value `i` in one dimension.
    pub open spec fn shares1(self, u: Seq<T>, i: int) -> spec_fn(int) -> T {
        |k: int| self.entry(i, k).times(self.scaled1(u, k))
    }

    /// Coefficients that are not zero.
    pub open spec fn kept1(self, u: Seq<T>) -> spec_fn(int) -> bool {
        |k: int| !self.scaled1(u, k).same(T::zero_val())
    }

    // two dimensions

    /// Products along the last axis in two dimensions.
    pub open spec fn terms2_last(self, u: Seq<T>, i: int, k: int) -> spec_fn(int) -> T {
        |j: int| u[i * self.p + j].times(self.entry(j, k))
    }

    /// Products along the first axis in two dimensions.
    pub open spec fn terms2(self, u: Seq<T>, l: int, k: int) -> spec_fn(int) -> T {
        |i: int| self.entry(i, l).times(sum(self.p, self.terms2_last(u, i, k)))
    }

    /// Coefficient `t = l * p + k` in two dimensions, divided by its eigenvalue.
    pub open spec fn scaled2(self, u: Seq<T>, t: int) -> T {
        let (l, k) = (t / self.p, t % self.p);
        sum(self.p, self.terms2(u, l, k)).over(self.joined(self.lambda[l], self.lambda[k]))
    }

    /// First factor of the share of coefficient `t` in row `i`.
    pub open spec fn lead2(self, u: Seq<T>, i: int, t: int) -> T {
        self.entry(i, t / self.p).times(self.scaled2(u, t))
    }

    /// Shares of value `(i, j)` in two dimensions.
    pub open spec fn shares2(self, u: Seq<T>, i: int, j: int) -> spec_fn(int) -> T {
        |t: int| self.lead2(u, i, t).times(self.entry(j, t % self.p))
    }

    /// Coefficients that contribute to row `i`.
    pub open spec fn kept2(self, u: Seq<T>, i: int) -> spec_fn(int) -> bool {
        |t: int|
            !self.scaled2(u, t).same(T::zero_val()) && !self.lead2(u, i, t).same(T::zero_val())
    }

    // three dimensions

    /// Products along the last axis in three dimensions.
    pub open spec fn terms3_last(self, u: Seq<T>, i: int, j: int, l: int) -> spec_fn(int) -> T {
        |k: int| u[(i * self.p + j) * self.p + k].times(self.entry(k, l))
    }

    /// Products along the middle axis in three dimensions.
    pub open spec fn terms3_middle(self, u: Seq<T>, i: int, m: int, l: int) -> spec_fn(int) -> T {
        |j: int| self.entry(j, m).times(sum(self.p, self.terms3_last(u, i, j, l)))
    }

    /// Products along the first axis in three dimensions.
    pub open spec fn terms3(self, u: Seq<T>, n: int, m: int, l: int) -> spec_fn(int) -> T {
        |i: int| self.entry(i, n).times(sum(self.p, self.terms3_middle(u, i, m, l)))
    }

    /// Coefficient `t = (n * p + m) * p + l` in three dimensions, divided by its eigenvalue.
    pub open spec fn scaled3(self, u: Seq<T>, t: int) -> T {
        let (n, m, l) = (t / self.p / self.p, t / self.p % self.p, t % self.p);
        sum(self.p, self.terms3(u, n, m, l)).over(
            self.joined(self.joined(self.lambda[n], self.lambda[m]), self.lambda[l]),
        )
    }

    /// First factor of the share of coefficient `t` in plane `i`.
    pub open spec fn lead3(self, u: Seq<T>, i: int, t: int) -> T {
        self.entry(i, t / self.p / self.p).times(self.scaled3(u, t))
    }

    /// First two factors of the share of coefficient `t` in row `(i, j)`.
    pub open spec fn pair3(self, u: Seq<T>, i: int, j: int, t: int) -> T {
        self.lead3(u, i, t).times(self.entry(j, t / self.p % self.p))
    }

    /// Shares of value `(i, j, k)` in three dimensions.
    pub open spec fn shares3(self, u: Seq<T>, i: int, j: int, k: int) -> spec_fn(int) -> T {
        |t: int| self.pair3(u, i, j, t).times(self.entry(k, t % self.p))
    }

    /// Coefficients that contribute to row `(i, j)`.
    pub open spec fn kept3(self, u: Seq<T>, i: int, j: int) -> spec_fn(int) -> bool {
        |t: int|
            !self.scaled3(u, t).same(T::zero_val()) && !self.lead3(u, i, t).same(T::zero_val())
                && !self.pair3(u, i, j, t).same(T::zero_val())
    }

    /// Number of values on an element.
    pub open spec fn cells(self, dim: int) -> int {
        if dim == 1 {
            self.p
        } else if dim == 2 {
            self.p * self.p
        } else {
            self.p * self.p * self.p
        }
    }

    /// Value `x` of the inverse on an element.
    pub open spec fn value(self, dim: int, u: Seq<T>, x: int) -> T {
        let p = self.p;
        if dim == 1 {
            kept_sum(p, self.kept1(u), self.shares1(u, x))
        } else if dim == 2 {
            kept_sum(p * p, self.kept2(u, x / p), self.shares2(u, x / p, x % p))
        } else {
            kept_sum(
                p * p * p,
                self.kept3(u, x / p / p, x / p % p),
                self.shares3(u, x / p / p, x / p % p, x % p),
            )
        }
    }

    /// The inverse on an element with `len` local values; values past the tensor grid are zero.
    pub open spec fn image(self, dim: int, len: int) -> spec_fn(Seq<T>) -> Seq<T> {
        |u: Seq<T>|
            Seq::new(
                len as nat,
                |x: int|
                    if x < self.cells(dim) {
                        self.value(dim, u, x)
                    } else {
                        T::zero_val()
                    },
            )
    }

    /// The tables have the right sizes.
    pub open spec fn valid(self) -> bool {
        &&& 0 <= self.p
        &&& self.p * self.p <= usize::MAX
        &&& self.vectors.len() == self.p * self.p
        &&& self.lambda.len() == self.p
    }
}

/// Computes the element inverse.
struct ElementInverseMap<'a, T: Real> {
    kind: FdmOperatorKind,
    dim: usize,
    p: usize,
    len: usize,
    vectors: &'a Vec<T>,
    lambda: &'a Vec<T>,
}

impl<'a, T: Real> ElementInverseMap<'a, T> {
    spec fn tables(&self) -> Diagonalizer<T> {
        Diagonalizer {
            kind: self.kind,
            p: self.p as int,
            vectors: self.vectors@,
            lambda: self.lambda@,
        }
    }

    spec fn ready(&self) -> bool {
        &&& 1 <= self.dim <= 3
        &&& self.tables().valid()
        &&& self.tables().cells(self.dim as int) <= self.len
    }

    fn entry(&self, i: usize, k: usize) -> (x: T)
        requires
            self.tables().valid(),
            i < self.p,
            k < self.p,
        ensures
            x == self.tables().entry(i as int, k as int),
    {
        proof {
            lemma_flat(k as int, self.p as int, i as int, self.p as int);
            lemma_mul_le(k as int, self.p as int, self.p as int, self.p as int);
        }
        self.vectors[i + k * self.p]
    }

    fn join(&self, a: T, b: T) -> (x: T)
        ensures
            x == self.tables().joined(a, b),
    {
        match self.kind {
            FdmOperatorKind::Mass => a.mul(b),
            FdmOperatorKind::Stiffness => a.add(b),
        }
    }

    // one dimension

    fn scaled1_of(&self, u: &[T], k: usize) -> (x: T)
        requires
            self.tables().valid(),
            k < self.p,
            self.p <= u@.len(),
        ensures
            x == self.tables().scaled1(u@, k as int),
    {
        let mut s = T::zero();
        for i in 0..self.p
            invariant
                self.tables().valid(),
                k < self.p,
                self.p <= u@.len(),
                s == sum(i as int, self.tables().terms1(u@, k as int)),
        {
            s = s.add(self.entry(i, k).mul(u[i]));
        }
        s.div(self.lambda[k])
    }

    /// The divided coefficients in one dimension.
    fn coefficients1(&self, u: &[T]) -> (c: Vec<T>)
        requires
            self.tables().valid(),
            self.p <= u@.len(),
        ensures
            c@.len() == self.p,
            forall|k: int| 0 <= k < self.p ==> #[trigger] c@[k] == self.tables().scaled1(u@, k),
    {
        let mut c: Vec<T> = Vec::new();
        for k in 0..self.p
            invariant
                self.tables().valid(),
                self.p <= u@.len(),
                c@.len() == k,
                forall|j: int| 0 <= j < k ==> #[trigger] c@[j] == self.tables().scaled1(u@, j),
        {
            c.push(self.scaled1_of(u, k));
        }
        c
    }

    fn value1(&self, u: &[T], c: &Vec<T>, i: usize) -> (x: T)
        requires
            self.tables().valid(),
            i < self.p,
            c@.len() == self.p,
            forall|k: int| 0 <= k < self.p ==> #[trigger] c@[k] == self.tables().scaled1(u@, k),
        ensures
            x == self.tables().value(1, u@, i as int),
    {
        let mut s = T::zero();
        for k in 0..self.p
            invariant
                self.tables().valid(),
                i < self.p,
                c@.len() == self.p,
                forall|k: int|
                    0 <= k < self.p ==> #[trigger] c@[k] == self.tables().scaled1(u@, k),
                s == kept_sum(
                    k as int,
                    self.tables().kept1(u@),
                    self.tables().shares1(u@, i as int),
                ),
        {
            if !c[k].eq_value(T::zero()) {
                s = s.add(self.entry(i, k).mul(c[k]));
            }
        }
        s
    }

    // two dimensions

    fn last2(&self, u: &[T], i: usize, k: usize) -> (x: T)
        requires
            self.tables().valid(),
            i < self.p,
            k < self.p,
            self.p * self.p <= u@.len(),
        ensures
            x == sum(self.p as int, self.tables().terms2_last(u@, i as int, k as int)),
    {
        let mut s = T::zero();
        for j in 0..self.p
            invariant
                self.tables().valid(),
                i < self.p,
                k < self.p,
                self.p * self.p <= u@.len(),
                s == sum(j as int, self.tables().terms2_last(u@, i as int, k as int)),
        {
            proof {
                lemma_flat(i as int, self.p as int, j as int, self.p as int);
                lemma_mul_le(i as int, self.p as int, self.p as int, self.p as int);
            }
            s = s.add(u[i * self.p + j].mul(self.entry(j, k)));
        }
        s
    }

    /// The divided coefficients in two dimensions.
    fn coefficients2(&self, u: &[T]) -> (c: Vec<T>)
        requires
            self.tables().valid(),
            self.p * self.p <= u@.len(),
        ensures
            c@.len() == self.p * self.p,
            forall|t: int|
                0 <= t < self.p * self.p ==> #[trigger] c@[t] == self.tables().scaled2(u@, t),
    {
        let p: usize = self.p;
        let mut tmp: Vec<T> = Vec::new();
        for x in 0..p * p
            invariant
                self.tables().valid(),
                p == self.p,
                p * p <= u@.len(),
                p * p <= usize::MAX,
                tmp@.len() == x,
                forall|y: int|
                    0 <= y < x ==> #[trigger] tmp@[y] == sum(
                        p as int,
                        self.tables().terms2_last(u@, y / (p as int), y % (p as int)),
                    ),
        {
            proof {
                lemma_split(x as int, p as int, p as int);
            }
            tmp.push(self.last2(u, x / p, x % p));
        }
        let mut c: Vec<T> = Vec::new();
        for t in 0..p * p
            invariant
                self.tables().valid(),
                p == self.p,
                p * p <= usize::MAX,
                tmp@.len() == p * p,
                forall|y: int|
                    0 <= y < p * p ==> #[trigger] tmp@[y] == sum(
                        p as int,
                        self.tables().terms2_last(u@, y / (p as int), y % (p as int)),
                    ),
                c@.len() == t,
                forall|y: int| 0 <= y < t ==> #[trigger] c@[y] == self.tables().scaled2(u@, y),
        {
            proof {
                lemma_split(t as int, p as int, p as int);
            }
            let (l, k): (usize, usize) = (t / p, t % p);
            let mut s = T::zero();
            for i in 0..p
                invariant
                    self.tables().valid(),
                    p == self.p,
                    p * p <= usize::MAX,
                    l < p,
                    k < p,
                    tmp@.len() == p * p,
                    forall|y: int|
                        0 <= y < p * p ==> #[trigger] tmp@[y] == sum(
                            p as int,
                            self.tables().terms2_last(u@, y / (p as int), y % (p as int)),
                        ),
                    s == sum(i as int, self.tables().terms2(u@, l as int, k as int)),
            {
                proof {
                    lemma_flat(i as int, p as int, k as int, p as int);
                    lemma_mul_le(i as int, p as int, p as int, p as int);
                }
                s = s.add(self.entry(i, l).mul(tmp[i * p + k]));
            }
            c.push(s.div(self.join(self.lambda[l], self.lambda[k])));
        }
        c
    }

    fn value2(&self, u: &[T], c: &Vec<T>, i: usize, j: usize) -> (x: T)
        requires
            self.tables().valid(),
            i < self.p,
            j < self.p,
            c@.len() == self.p * self.p,
            forall|t: int|
                0 <= t < self.p * self.p ==> #[trigger] c@[t] == self.tables().scaled2(u@, t),
        ensures
            x == kept_sum(
                self.p * self.p,
                self.tables().kept2(u@, i as int),
                self.tables().shares2(u@, i as int, j as int),
            ),
    {
        let p: usize = self.p;
        let mut s = T::zero();
        for t in 0..p * p
            invariant
                self.tables().valid(),
                p == self.p,
                p * p <= usize::MAX,
                i < p,
                j < p,
                c@.len() == p * p,
                forall|t: int|
                    0 <= t < p * p ==> #[trigger] c@[t] == self.tables().scaled2(u@, t),
                s == kept_sum(
                    t as int,
                    self.tables().kept2(u@, i as int),
                    self.tables().shares2(u@, i as int, j as int),
                ),
        {
            proof {
                lemma_split(t as int, p as int, p as int);
            }
            let lead = self.entry(i, t / p).mul(c[t]);
            if !c[t].eq_value(T::zero()) && !lead.eq_value(T::zero()) {
                s = s.add(lead.mul(self.entry(j, t % p)));
            }
        }
        s
    }

    // three dimensions

    fn last3(&self, u: &[T], i: usize, j: usize, l: usize) -> (x: T)
        requires
            self.tables().valid(),
            i < self.p,
            j < self.p,
            l < self.p,
            self.p * self.p * self.p <= u@.len(),
        ensures
            x == sum(
                self.p as int,
                self.tables().terms3_last(u@, i as int, j as int, l as int),
            ),
    {
        assert(u@.len() == u.len());
        let mut s = T::zero();
        for k in 0..self.p
            invariant
                self.tables().valid(),
                i < self.p,
                j < self.p,
                l < self.p,
                self.p * self.p * self.p <= u@.len() <= usize::MAX,
                s == sum(
                    k as int,
                    self.tables().terms3_last(u@, i as int, j as int, l as int),
                ),
        {
            proof {
                let p = self.p as int;
                lemma_flat3(i as int, p, j as int, p, k as int, p);
                lemma_mul_le(i as int, p, p, p);
                lemma_mul_le(i * p + j, p * p, p, p);
            }
            s = s.add(u[(i * self.p + j) * self.p + k].mul(self.entry(k, l)));
        }
        s
    }

    /// The divided coefficients in three dimensions.
    fn coefficients3(&self, u: &[T]) -> (c: Vec<T>)
        requires
            self.tables().valid(),
            self.p * self.p * self.p <= u@.len(),
        ensures
            c@.len() == self.p * self.p * self.p,
            forall|t: int|
                0 <= t < self.p * self.p * self.p ==> #[trigger] c@[t] == self.tables().scaled3(
                    u@,
                    t,
                ),
    {
        assert(u@.len() == u.len());
        let p: usize = self.p;
        let cells: usize = p * p * p;
        let mut t1: Vec<T> = Vec::new();
        for x in 0..cells
            invariant
                self.tables().valid(),
                p == self.p,
                cells == p * p * p,
                cells <= u@.len(),
                t1@.len() == x,
                forall|y: int|
                    0 <= y < x ==> #[trigger] t1@[y] == sum(
                        p as int,
                        self.tables().terms3_last(
                            u@,
                            y / (p as int) / (p as int),
                            y / (p as int) % (p as int),
                            y % (p as int),
                        ),
                    ),
        {
            proof {
                lemma_split3(x as int, p as int, p as int, p as int);
            }
            t1.push(self.last3(u, x / p / p, x / p % p, x % p));
        }
        let mut t2: Vec<T> = Vec::new();
        for x in 0..cells
            invariant
                self.tables().valid(),
                p == self.p,
                cells == p * p * p,
                t1@.len() == cells,
                forall|y: int|
                    0 <= y < cells ==> #[trigger] t1@[y] == sum(
                        p as int,
                        self.tables().terms3_last(
                            u@,
                            y / (p as int) / (p as int),
                            y / (p as int) % (p as int),
                            y % (p as int),
                        ),
                    ),
                t2@.len() == x,
                forall|y: int|
                    0 <= y < x ==> #[trigger] t2@[y] == sum(
                        p as int,
                        self.tables().terms3_middle(
                            u@,
                            y / (p as int) / (p as int),
                            y / (p as int) % (p as int),
                            y % (p as int),
                        ),
                    ),
        {
            proof {
                lemma_split3(x as int, p as int, p as int, p as int);
            }
            let (i, m, l): (usize, usize, usize) = (x / p / p, x / p % p, x % p);
            let mut s = T::zero();
            for j in 0..p
                invariant
                    self.tables().valid(),
                    p == self.p,
                    cells == p * p * p,
                    i < p,
                    m < p,
                    l < p,
                    t1@.len() == cells,
                    forall|y: int|
                        0 <= y < cells ==> #[trigger] t1@[y] == sum(
                            p as int,
                            self.tables().terms3_last(
                                u@,
                                y / (p as int) / (p as int),
                                y / (p as int) % (p as int),
                                y % (p as int),
                            ),
                        ),
                    s == sum(
                        j as int,
                        self.tables().terms3_middle(u@, i as int, m as int, l as int),
                    ),
            {
                proof {
                    let q = p as int;
                    lemma_flat3(i as int, q, j as int, q, l as int, q);
                    lemma_mul_le(i as int, q, q, q);
                    lemma_mul_le(i * q + j, q * q, q, q);
                }
                s = s.add(self.entry(j, m).mul(t1[(i * p + j) * p + l]));
            }
            t2.push(s);
        }
        let mut c: Vec<T> = Vec::new();
        for t in 0..cells
            invariant
                self.tables().valid(),
                p == self.p,
                cells == p * p * p,
                t2@.len() == cells,
                forall|y: int|
                    0 <= y < cells ==> #[trigger] t2@[y] == sum(
                        p as int,
                        self.tables().terms3_middle(
                            u@,
                            y / (p as int) / (p as int),
                            y / (p as int) % (p as int),
                            y % (p as int),
                        ),
                    ),
                c@.len() == t,
                forall|y: int| 0 <= y < t ==> #[trigger] c@[y] == self.tables().scaled3(u@, y),
        {
            proof {
                lemma_split3(t as int, p as int, p as int, p as int);
            }
            let (n, m, l): (usize, usize, usize) = (t / p / p, t / p % p, t % p);
            let mut s = T::zero();
            for i in 0..p
                invariant
                    self.tables().valid(),
                    p == self.p,
                    cells == p * p * p,
                    n < p,
                    m < p,
                    l < p,
                    t2@.len() == cells,
                    forall|y: int|
                        0 <= y < cells ==> #[trigger] t2@[y] == sum(
                            p as int,
                            self.tables().terms3_middle(
                                u@,
                                y / (p as int) / (p as int),
                                y / (p as int) % (p as int),
                                y % (p as int),
                            ),
                        ),
                    s == sum(
                        i as int,
                        self.tables().terms3(u@, n as int, m as int, l as int),
                    ),
            {
                proof {
                    let q = p as int;
                    lemma_flat3(i as int, q, m as int, q, l as int, q);
                    lemma_mul_le(i as int, q, q, q);
                    lemma_mul_le(i * q + m, q * q, q, q);
                }
                s = s.add(self.entry(i, n).mul(t2[(i * p + m) * p + l]));
            }
            c.push(
                s.div(self.join(self.join(self.lambda[n], self.lambda[m]), self.lambda[l])),
            );
        }
        c
    }

    fn value3(&self, u: &[T], c: &Vec<T>, i: usize, j: usize, k: usize) -> (x: T)
        requires
            self.tables().valid(),
            i < self.p,
            j < self.p,
            k < self.p,
            c@.len() == self.p * self.p * self.p,
            forall|t: int|
                0 <= t < self.p * self.p * self.p ==> #[trigger] c@[t] == self.tables().scaled3(
                    u@,
                    t,
                ),
        ensures
            x == kept_sum(
                self.p * self.p * self.p,
                self.tables().kept3(u@, i as int, j as int),
                self.tables().shares3(u@, i as int, j as int, k as int),
            ),
    {
        let p: usize = self.p;
        let cells: usize = c.len();
        let mut s = T::zero();
        for t in 0..cells
            invariant
                self.tables().valid(),
                p == self.p,
                cells == p * p * p,
                i < p,
                j < p,
                k < p,
                c@.len() == cells,
                forall|t: int|
                    0 <= t < cells ==> #[trigger] c@[t] == self.tables().scaled3(u@, t),
                s == kept_sum(
                    t as int,
                    self.tables().kept3(u@, i as int, j as int),
                    self.tables().shares3(u@, i as int, j as int, k as int),
                ),
        {
            proof {
                lemma_split3(t as int, p as int, p as int, p as int);
            }
            let lead = self.entry(i, t / p / p).mul(c[t]);
            let pair = lead.mul(self.entry(j, t / p % p));
            if !c[t].eq_value(T::zero()) && !lead.eq_value(T::zero()) && !pair.eq_value(
                T::zero(),
            ) {
                s = s.add(pair.mul(self.entry(k, t % p)));
            }
        }
        s
    }
}

impl<'a, T: Real> ElementMap<T> for ElementInverseMap<'a, T> {
    closed spec fn valid(&self) -> bool {
        self.ready()
    }

    closed spec fn has_mode(&self, eval_mode: EvalMode, transpose: bool) -> bool {
        true
    }

    closed spec fn in_len(&self, eval_mode: EvalMode, transpose: bool) -> int {
        self.len as int
    }

    closed spec fn out_len(&self, eval_mode: EvalMode, transpose: bool) -> int {
        self.len as int
    }

    closed spec fn image(&self, eval_mode: EvalMode, transpose: bool) -> spec_fn(Seq<T>) -> Seq<T> {
        self.tables().image(self.dim as int, self.len as int)
    }

    fn compute(&self, eval_mode: EvalMode, transpose: bool, u: &[T]) -> (r: Vec<T>) {
        let p: usize = self.p;
        let ghost goal = (self.tables().image(self.dim as int, self.len as int))(u@);
        proof {
            assert(0 <= p * p) by (nonlinear_arith);
            assert(self.dim == 3 ==> p * p * p <= usize::MAX);
        }
        let cells: usize = if self.dim == 1 {
            p
        } else if self.dim == 2 {
            p * p
        } else {
            p * p * p
        };
        let c = if self.dim == 1 {
            self.coefficients1(u)
        } else if self.dim == 2 {
            self.coefficients2(u)
        } else {
            self.coefficients3(u)
        };
        let mut r: Vec<T> = Vec::new();
        for x in 0..self.len
            invariant
                self.ready(),
                p == self.p,
                u@.len() == self.len,
                cells == self.tables().cells(self.dim as int),
                goal == (self.tables().image(self.dim as int, self.len as int))(u@),
                self.dim == 1 ==> c@.len() == cells && forall|t: int|
                    0 <= t < cells ==> #[trigger] c@[t] == self.tables().scaled1(u@, t),
                self.dim == 2 ==> c@.len() == cells && forall|t: int|
                    0 <= t < cells ==> #[trigger] c@[t] == self.tables().scaled2(u@, t),
                self.dim == 3 ==> c@.len() == cells && forall|t: int|
                    0 <= t < cells ==> #[trigger] c@[t] == self.tables().scaled3(u@, t),
                r@.len() == x,
                forall|y: int| 0 <= y < x ==> #[trigger] r@[y] == goal[y],
        {
            if x >= cells {
                r.push(T::zero());
            } else if self.dim == 1 {
                r.push(self.value1(u, &c, x));
            } else if self.dim == 2 {
                proof {
                    lemma_split(x as int, p as int, p as int);
                }
                r.push(self.value2(u, &c, x / p, x % p));
            } else {
                proof {
                    lemma_split3(x as int, p as int, p as int, p as int);
                }
                r.push(self.value3(u, &c, x / p / p, x / p % p, x % p));
            }
        }
        assert(r@ =~= goal);
        r
    }
}

// ── the operator ────────────────────────────────────────────────────────────

/// Applies the inverse of a tensor-product operator element by element.
#[verifier::reject_recursive_types(T)]
#[verifier::reject_recursive_types(R)]
pub struct CpuFdmTensorInverseOperator<T: Real, R: ElemRestrictionTrait<T> + ?Sized> {
    eigen: EigenArrays<T>,
    dim: usize,
    p: usize,
    num_elem: usize,
    global_dof: usize,
    op_kind: FdmOperatorKind,
    restriction: Box<R>,
}

/// The mathematical content of a [`CpuFdmTensorInverseOperator`] beside its restriction.
#[verifier::ext_equal]
pub struct TensorInverseView<T> {
    pub eigen: EigenData<T>,
    pub dim: usize,
    pub p: usize,
    pub num_elem: usize,
    pub op_kind: FdmOperatorKind,
}

impl<T: Real> TensorInverseView<T> {
    /// Eigenvectors and the eigenvalues by which coefficients are divided.
    pub open spec fn tables(self) -> Diagonalizer<T> {
        Diagonalizer {
            kind: self.op_kind,
            p: self.p as int,
            vectors: self.eigen.vectors,
            lambda: match self.op_kind {
                FdmOperatorKind::Mass => self.eigen.mass,
                FdmOperatorKind::Stiffness => self.eigen.stiff,
            },
        }
    }

    /// There are one, two or three dimensions.
    pub open spec fn has_dim(self) -> bool {
        1 <= self.dim <= 3
    }
}

impl<T: Real, R: ElemRestrictionTrait<T> + ?Sized> CpuFdmTensorInverseOperator<T, R> {
    /// The restriction to elements.
    pub closed spec fn gathers(&self) -> &R {
        &*self.restriction
    }

    /// The content beside the restriction.
    pub closed spec fn content(&self) -> TensorInverseView<T> {
        TensorInverseView {
            eigen: self.eigen@,
            dim: self.dim,
            p: self.p,
            num_elem: self.num_elem,
            op_kind: self.op_kind,
        }
    }

    /// Length of the global vectors.
    pub closed spec fn size(&self) -> usize {
        self.global_dof
    }

    /// Local values per element.
    pub open spec fn elem_len(&self) -> int {
        self.gathers().nodes_per_elem() * self.gathers().comps()
    }

    /// Length of the element-local vectors.
    pub open spec fn local_len(&self) -> int {
        self.gathers().elements() * self.elem_len()
    }

    /// Builds the operator from the one-dimensional tables of a basis.
    pub fn new(
        interp_1d: &[T],
        grad_1d: &[T],
        weights_1d: &[T],
        p: usize,
        q: usize,
        dim: usize,
        num_elem: usize,
        op_kind: FdmOperatorKind,
        restriction: Box<R>,
    ) -> (r: ReedResult<Self>)
        requires
            p * p <= usize::MAX,
            p <= i64::MAX,
            q * p <= interp_1d@.len(),
            q * p <= grad_1d@.len(),
            q <= weights_1d@.len(),
        ensures
            r matches Ok(op) && {
                &&& op.gathers() == &*restriction
                &&& op.size() == restriction.global_len()
                &&& op.content() == (TensorInverseView {
                    eigen: eigen_data(
                        interp_1d@,
                        grad_1d@,
                        weights_1d@,
                        p as int,
                        q as int,
                    ),
                    dim,
                    p,
                    num_elem,
                    op_kind,
                })
                &&& op.content().tables().valid()
            },
    {
        let eigen = build_fdm_1d_data(interp_1d, grad_1d, weights_1d, p, q);
        let global_dof: usize = restriction.num_global_dof();
        Ok(
            CpuFdmTensorInverseOperator {
                eigen,
                dim,
                p,
                num_elem,
                global_dof,
                op_kind,
                restriction,
            },
        )
    }

    fn apply_impl(&self, xg: &[T], yg: &mut [T], add: bool) -> (r: ReedResult<()>)
        requires
            self.wf(),
        ensures
            final(yg)@.len() == old(yg)@.len(),
            final(yg)@ == self.product(
                OperatorTransposeRequest::Forward,
                add,
                xg@,
                old(yg)@,
            ).values,
            self.product(OperatorTransposeRequest::Forward, add, xg@, old(yg)@).reported(r),
    {
        let ghost before = yg@;
        if xg.len() != self.global_dof || yg.len() != self.global_dof {
            return Err(
                ReedError::Operator(
                    Message::new("FDM apply: expected len ").num(self.global_dof).text(
                        ", got x=",
                    ).num(xg.len()).text(" y=").num(yg.len()).done(),
                ),
            );
        }
        let elem_len: usize = self.restriction.num_dof_per_elem() * self.restriction.num_comp();
        let nelem: usize = self.restriction.num_elements();
        let local_len: usize = nelem * elem_len;
        let mut ul = zeros::<T>(local_len);
        let mut vl = zeros::<T>(local_len);
        assert(ul@ =~= zero_values::<T>(local_len as nat));
        if let Err(e) = self.restriction.apply(
            TransposeMode::NoTranspose,
            xg,
            ul.as_mut_slice(),
        ) {
            return Err(e);
        }
        if nelem > 0 {
            if !(1 <= self.dim && self.dim <= 3) {
                return Err(
                    ReedError::Operator(
                        Message::new("FDM: unsupported dim ").num(self.dim).done(),
                    ),
                );
            }
            let lambda = match self.op_kind {
                FdmOperatorKind::Mass => &self.eigen.mass,
                FdmOperatorKind::Stiffness => &self.eigen.stiff,
            };
            let map = ElementInverseMap {
                kind: self.op_kind,
                dim: self.dim,
                p: self.p,
                len: elem_len,
                vectors: &self.eigen.vectors,
                lambda,
            };
            assert(map.tables() == self.content().tables());
            apply_batch(
                &map,
                nelem,
                EvalMode::Interp,
                false,
                elem_len,
                elem_len,
                ul.as_slice(),
                vl.as_mut_slice(),
            );
        }
        proof {
            assert(vl@ =~= self.local_images(xg@));
        }
        if !add {
            clear(yg);
        }
        self.restriction.apply(TransposeMode::Transpose, vl.as_slice(), yg)
    }

    /// What an application does to the numbers of a vector; it overwrites `y` or, with `add`, adds
    /// to it.
    pub open spec fn product(
        &self,
        request: OperatorTransposeRequest,
        add: bool,
        x: Seq<T>,
        y: Seq<T>,
    ) -> Outcome<T> {
        let (n, g) = (self.size(), self.gathers());
        let len = self.local_len() as nat;
        let start = if add {
            y
        } else {
            zero_values(y.len())
        };
        if x.len() != n || y.len() != n {
            Outcome::failed(
                ErrorKind::Operator,
                "FDM apply: expected len "@ + decimal(n as nat) + ", got x="@ + decimal(x.len())
                    + " y="@ + decimal(y.len()),
                y,
            )
        } else if g.refusal(TransposeMode::NoTranspose, x.len(), len) is Some {
            Outcome { error: g.refusal(TransposeMode::NoTranspose, x.len(), len), values: y }
        } else if g.elements() > 0 && !self.content().has_dim() {
            Outcome::failed(
                ErrorKind::Operator,
                "FDM: unsupported dim "@ + decimal(self.content().dim as nat),
                y,
            )
        } else {
            Outcome {
                error: g.refusal(TransposeMode::Transpose, len, y.len()),
                values: g.applied(TransposeMode::Transpose, self.local_images(x), start),
            }
        }
    }

    /// What assembling the diagonal does to the numbers of a vector.
    pub open spec fn diagonal_result(&self, add: bool, y: Seq<T>) -> Outcome<T> {
        let n = self.size();
        let first = self.product(
            OperatorTransposeRequest::Forward,
            false,
            unit_vector(n as nat, 0),
            zero_values(n as nat),
        );
        if y.len() != n {
            Outcome::failed(
                ErrorKind::Operator,
                (if add {
                    "diag_add: len "@
                } else {
                    "diag: len "@
                }) + decimal(y.len()) + " != "@ + decimal(n as nat),
                y,
            )
        } else if n > 0 && first.error is Some {
            Outcome { error: first.error, values: y }
        } else {
            Outcome::done(
                Seq::new(n as nat, |j: int| stored_or_added(add, y[j], self.diagonal_entry(j))),
            )
        }
    }

    /// The element-local inverse of the restriction of `x`.
    pub open spec fn local_images(&self, x: Seq<T>) -> Seq<T> {
        let ul = self.gathers().applied(
            TransposeMode::NoTranspose,
            x,
            zero_values(self.local_len() as nat),
        );
        batched(
            self.content().tables().image(self.content().dim as int, self.elem_len()),
            self.gathers().elements(),
            self.elem_len(),
            self.elem_len(),
            ul,
        )
    }

    /// Diagonal entry `j`.
    pub open spec fn diagonal_entry(&self, j: int) -> T {
        self.product(
            OperatorTransposeRequest::Forward,
            false,
            unit_vector(self.size() as nat, j),
            zero_values(self.size() as nat),
        ).values[j]
    }

    fn diagonal(&self, a: &mut [T], add: bool) -> (r: ReedResult<()>)
        requires
            self.wf(),
        ensures
            final(a)@.len() == old(a)@.len(),
            final(a)@ == self.diagonal_result(add, old(a)@).values,
            self.diagonal_result(add, old(a)@).reported(r),
    {
        let n: usize = self.global_dof;
        if a.len() != n {
            let what = if add {
                "diag_add: len "
            } else {
                "diag: len "
            };
            return Err(
                ReedError::Operator(Message::new(what).num(a.len()).text(" != ").num(n).done()),
            );
        }
        let ghost before = a@;
        let ghost goal = self.diagonal_result(add, before).values;
        for j in 0..n
            invariant
                self.wf(),
                n == self.size(),
                a@.len() == n,
                before.len() == n,
                before == old(a)@,
                goal == self.diagonal_result(add, before).values,
                j > 0 ==> self.diagonal_result(add, before).error is None,
                forall|k: int| 0 <= k < j ==> #[trigger] a@[k] == goal[k],
                forall|k: int| j <= k < n ==> #[trigger] a@[k] == before[k],
        {
            let mut x = zeros::<T>(n);
            let mut y = zeros::<T>(n);
            x.set(j, T::one());
            assert(x@ =~= unit_vector(n as nat, j as int));
            assert(y@ =~= zero_values::<T>(n as nat));
            if let Err(e) = self.apply_impl(x.as_slice(), y.as_mut_slice(), false) {
                proof {
                    assert(a@ =~= before);
                }
                return Err(e);
            }
            a[j] = if add {
                a[j].add(y[j])
            } else {
                y[j]
            };
        }
        assert(a@ =~= goal);
        Ok(())
    }
}

/// The vector with a one at `j` and zeros elsewhere.
pub open spec fn unit_vector<T: Real>(n: nat, j: int) -> Seq<T> {
    Seq::new(
        n,
        |i: int|
            if i == j {
                T::one_val()
            } else {
                T::zero_val()
            },
    )
}

fn clear<T: Real>(y: &mut [T])
    ensures
        final(y)@ == zero_values::<T>(old(y)@.len()),
{
    let n: usize = y.len();
    for i in 0..n
        invariant
            n == y@.len(),
            n == old(y)@.len(),
            forall|k: int| 0 <= k < i ==> #[trigger] y@[k] == T::zero_val(),
    {
        y[i] = T::zero();
    }
    assert(y@ =~= zero_values::<T>(old(y)@.len()));
}

impl<T: Real, R: ElemRestrictionTrait<T> + ?Sized> OperatorTrait<T> for CpuFdmTensorInverseOperator<
    T,
    R,
> {
    open spec fn wf(&self) -> bool {
        let g = self.gathers();
        &&& g.wf()
        &&& 0 <= g.elements()
        &&& 0 <= g.nodes_per_elem()
        &&& 0 <= g.comps()
        &&& self.elem_len() <= usize::MAX
        &&& self.local_len() <= usize::MAX
        &&& self.content().tables().valid()
        &&& g.elements() > 0 && self.content().has_dim() ==> self.content().tables().cells(
            self.content().dim as int,
        ) <= self.elem_len()
    }

    open spec fn admits(
        &self,
        request: OperatorTransposeRequest,
        add: bool,
        xlen: nat,
        ylen: nat,
    ) -> bool {
        true
    }

    open spec fn outcome(
        &self,
        request: OperatorTransposeRequest,
        x: Seq<T>,
        y: Sink<T>,
    ) -> Outcome<T> {
        self.product(request, y.adds(), x, y.values())
    }

    open spec fn admits_named(
        &self,
        request: OperatorTransposeRequest,
        inputs: Seq<BufferView<T>>,
        outputs: NamedSink<T>,
    ) -> bool {
        true
    }

    open spec fn named_outcome(
        &self,
        request: OperatorTransposeRequest,
        inputs: Seq<BufferView<T>>,
        outputs: NamedSink<T>,
    ) -> NamedOutcome<T> {
        no_named_outcome(request, outputs)
    }

    open spec fn admits_diagonal(&self, add: bool, len: nat) -> bool {
        true
    }

    open spec fn diagonal_outcome(&self, y: Sink<T>) -> Outcome<T> {
        self.diagonal_result(y.adds(), y.values())
    }

    open spec fn len_hint(&self) -> Option<usize> {
        Some(self.size())
    }

    open spec fn needs_named(&self) -> bool {
        false
    }

    open spec fn readiness(&self) -> Option<(ErrorKind, Seq<char>)> {
        None
    }

    open spec fn supports(&self, kind: OperatorAssembleKind) -> bool {
        kind == OperatorAssembleKind::Diagonal
    }

    fn apply(
        &self,
        x: &Box<dyn VectorTrait<T>>,
        y: &mut Box<dyn VectorTrait<T>>,
    ) -> (r: ReedResult<()>) {
        self.apply_impl(x.as_slice(), y.as_mut_slice(), false)
    }

    fn apply_add(
        &self,
        x: &Box<dyn VectorTrait<T>>,
        y: &mut Box<dyn VectorTrait<T>>,
    ) -> (r: ReedResult<()>) {
        self.apply_impl(x.as_slice(), y.as_mut_slice(), true)
    }

    fn apply_with_transpose(
        &self,
        _request: OperatorTransposeRequest,
        x: &Box<dyn VectorTrait<T>>,
        y: &mut Box<dyn VectorTrait<T>>,
    ) -> (r: ReedResult<()>) {
        self.apply_impl(x.as_slice(), y.as_mut_slice(), false)
    }

    fn apply_add_with_transpose(
        &self,
        _request: OperatorTransposeRequest,
        x: &Box<dyn VectorTrait<T>>,
        y: &mut Box<dyn VectorTrait<T>>,
    ) -> (r: ReedResult<()>) {
        self.apply_impl(x.as_slice(), y.as_mut_slice(), true)
    }

    fn linear_assemble_diagonal(&self, assembled: &mut Box<dyn VectorTrait<T>>) -> (r: ReedResult<()>) {
        self.diagonal(assembled.as_mut_slice(), false)
    }

    fn linear_assemble_add_diagonal(&self, assembled: &mut Box<dyn VectorTrait<T>>) -> (r: ReedResult<()>) {
        self.diagonal(assembled.as_mut_slice(), true)
    }

    fn apply_field_buffers(
        &self,
        _inputs: &Vec<FieldBuffer<T>>,
        _outputs: &mut Vec<FieldBuffer<T>>,
    ) -> (r: ReedResult<()>) {
        Err(no_named(OperatorTransposeRequest::Forward, false))
    }

    fn apply_add_field_buffers(
        &self,
        _inputs: &Vec<FieldBuffer<T>>,
        _outputs: &mut Vec<FieldBuffer<T>>,
    ) -> (r: ReedResult<()>) {
        Err(no_named(OperatorTransposeRequest::Forward, true))
    }

    fn apply_field_buffers_with_transpose(
        &self,
        request: OperatorTransposeRequest,
        _inputs: &Vec<FieldBuffer<T>>,
        _outputs: &mut Vec<FieldBuffer<T>>,
    ) -> (r: ReedResult<()>) {
        Err(no_named(request, false))
    }

    fn apply_add_field_buffers_with_transpose(
        &self,
        request: OperatorTransposeRequest,
        _inputs: &Vec<FieldBuffer<T>>,
        _outputs: &mut Vec<FieldBuffer<T>>,
    ) -> (r: ReedResult<()>) {
        Err(no_named(request, true))
    }

    fn global_vector_len_hint(&self) -> (n: Option<usize>) {
        Some(self.global_dof)
    }

    fn requires_field_named_buffers(&self) -> (b: bool) {
        false
    }

    fn check_ready(&self) -> (r: ReedResult<()>) {
        Ok(())
    }

    fn operator_supports_assemble(&self, kind: OperatorAssembleKind) -> (b: bool) {
        match kind {
            OperatorAssembleKind::Diagonal => true,
            _ => false,
        }
    }
}

} // verus!
