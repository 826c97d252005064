//! Contractions of tensor-product data with one-dimensional matrices.

use vstd::prelude::*;

#[allow(unused_imports)]
use crate::index::{lemma_flat, lemma_flat3, lemma_mul_le, lemma_split, lemma_split3};
use crate::scalar::Real;
#[allow(unused_imports)]
use crate::scalar::sum;

verus! {

/// Entry of a row-major `q × p` matrix, or of its transpose, at output `j` and input `i`.
pub open spec fn coefficient<T: Real>(b: Seq<T>, p: int, transpose: bool, j: int, i: int) -> T {
    if transpose {
        b[i * p + j]
    } else {
        b[j * p + i]
    }
}

/// Number of inputs of the matrix, or of its transpose.
pub open spec fn inputs(q: int, p: int, transpose: bool) -> int {
    if transpose {
        q
    } else {
        p
    }
}

/// Number of outputs of the matrix, or of its transpose.
pub open spec fn outputs(q: int, p: int, transpose: bool) -> int {
    if transpose {
        p
    } else {
        q
    }
}

// ── strided vectors ─────────────────────────────────────────────────────────

/// Products of one output of a contraction of strided data.
pub open spec fn strided_terms<T: Real>(
    b: Seq<T>,
    p: int,
    transpose: bool,
    u: Seq<T>,
    stride: int,
    j: int,
) -> spec_fn(int) -> T {
    |i: int| coefficient(b, p, transpose, j, i).times(u[i * stride])
}

/// Output `j` of a contraction of strided data.
pub open spec fn contracted<T: Real>(
    b: Seq<T>,
    q: int,
    p: int,
    transpose: bool,
    u: Seq<T>,
    stride: int,
    j: int,
) -> T {
    sum(inputs(q, p, transpose), strided_terms(b, p, transpose, u, stride, j))
}

/// The last of `n` positions with the given stride lies inside a vector of length `len`.
pub open spec fn reaches(n: int, stride: int, len: int) -> bool {
    n > 0 ==> (n - 1) * stride < len
}

fn contract_row<T: Real>(
    b: &[T],
    u: &[T],
    u_stride: usize,
    q: usize,
    p: usize,
    transpose: bool,
    j: usize,
) -> (s: T)
    requires
        b@.len() >= q * p,
        b@.len() <= usize::MAX,
        u@.len() <= usize::MAX,
        j < outputs(q as int, p as int, transpose),
        reaches(inputs(q as int, p as int, transpose), u_stride as int, u@.len() as int),
    ensures
        s == contracted(b@, q as int, p as int, transpose, u@, u_stride as int, j as int),
{
    let n: usize = if transpose {
        q
    } else {
        p
    };
    let mut s = T::zero();
    for i in 0..n
        invariant
            n == inputs(q as int, p as int, transpose),
            b@.len() >= q * p,
            b@.len() <= usize::MAX,
            u@.len() <= usize::MAX,
            j < outputs(q as int, p as int, transpose),
            reaches(n as int, u_stride as int, u@.len() as int),
            s == sum(
                i as int,
                strided_terms(b@, p as int, transpose, u@, u_stride as int, j as int),
            ),
    {
        proof {
            lemma_mul_le(i as int, n - 1, u_stride as int, u_stride as int);
            if transpose {
                lemma_flat(i as int, q as int, j as int, p as int);
                lemma_mul_le(i as int, i as int, p as int, p as int);
            } else {
                lemma_flat(j as int, q as int, i as int, p as int);
                lemma_mul_le(j as int, j as int, p as int, p as int);
            }
        }
        let c = if transpose {
            b[i * p + j]
        } else {
            b[j * p + i]
        };
        s = s.add(c.mul(u[i * u_stride]));
    }
    s
}

/// `v` after the first `n` outputs of a contraction are written, or added, at their strided
/// positions in order.
pub open spec fn placed<T: Real>(
    b: Seq<T>,
    q: int,
    p: int,
    transpose: bool,
    u: Seq<T>,
    u_stride: int,
    v: Seq<T>,
    v_stride: int,
    add: bool,
    n: int,
) -> Seq<T>
    decreases n,
{
    if n <= 0 {
        v
    } else {
        let w = placed(b, q, p, transpose, u, u_stride, v, v_stride, add, n - 1);
        let c = contracted(b, q, p, transpose, u, u_stride, n - 1);
        let at = (n - 1) * v_stride;
        w.update(
            at,
            if add {
                w[at].plus(c)
            } else {
                c
            },
        )
    }
}

/// With a positive stride the outputs land on distinct positions, and the others stay.
pub proof fn lemma_placed<T: Real>(
    b: Seq<T>,
    q: int,
    p: int,
    transpose: bool,
    u: Seq<T>,
    u_stride: int,
    v: Seq<T>,
    v_stride: int,
    add: bool,
    n: int,
)
    requires
        0 <= n,
        v_stride > 0,
        reaches(n, v_stride, v.len() as int),
    ensures
        placed(b, q, p, transpose, u, u_stride, v, v_stride, add, n).len() == v.len(),
        forall|k: int|
            0 <= k < v.len() ==> #[trigger] placed(
                b,
                q,
                p,
                transpose,
                u,
                u_stride,
                v,
                v_stride,
                add,
                n,
            )[k] == if k % v_stride == 0 && k / v_stride < n {
                let c = contracted(b, q, p, transpose, u, u_stride, k / v_stride);
                if add {
                    v[k].plus(c)
                } else {
                    c
                }
            } else {
                v[k]
            },
    decreases n,
{
    if n > 0 {
        assert((n - 1) * v_stride >= 0 && (n - 1 > 0 ==> (n - 2) * v_stride <= (n - 1) * v_stride))
            by (nonlinear_arith)
            requires
                n > 0,
                v_stride > 0,
        ;
        lemma_placed(b, q, p, transpose, u, u_stride, v, v_stride, add, n - 1);
        let w = placed(b, q, p, transpose, u, u_stride, v, v_stride, add, n - 1);
        let r = placed(b, q, p, transpose, u, u_stride, v, v_stride, add, n);
        let at = (n - 1) * v_stride;
        lemma_multiple(n - 1, v_stride);
        assert(w[at] == v[at]);
        assert forall|k: int| 0 <= k < v.len() implies #[trigger] r[k] == if k % v_stride == 0 && k
            / v_stride < n {
            let c = contracted(b, q, p, transpose, u, u_stride, k / v_stride);
            if add {
                v[k].plus(c)
            } else {
                c
            }
        } else {
            v[k]
        } by {
            lemma_multiple_converse(k, v_stride, n - 1);
            assert(k != at ==> r[k] == w[k]);
        }
    }
}

/// `v[j * v_stride] = Σ_i B[j, i] u[i * u_stride]` for `j = 0, 1, …`, with the transpose of `B`
/// where asked; the other entries of `v` stay.
pub fn tensor_contract_strided<T: Real>(
    b: &[T],
    u: &[T],
    u_stride: usize,
    v: &mut [T],
    v_stride: usize,
    q: usize,
    p: usize,
    transpose: bool,
)
    requires
        b@.len() >= q * p,
        reaches(inputs(q as int, p as int, transpose), u_stride as int, u@.len() as int),
        reaches(outputs(q as int, p as int, transpose), v_stride as int, old(v)@.len() as int),
    ensures
        final(v)@ == placed(
            b@,
            q as int,
            p as int,
            transpose,
            u@,
            u_stride as int,
            old(v)@,
            v_stride as int,
            false,
            outputs(q as int, p as int, transpose),
        ),
        final(v)@.len() == old(v)@.len(),
{
    let n: usize = if transpose {
        p
    } else {
        q
    };
    let blen: usize = b.len();
    let ulen: usize = u.len();
    let vlen: usize = v.len();
    for j in 0..n
        invariant
            n == outputs(q as int, p as int, transpose),
            b@.len() >= q * p,
            blen == b@.len(),
            ulen == u@.len(),
            vlen == v@.len(),
            v@.len() == old(v)@.len(),
            reaches(inputs(q as int, p as int, transpose), u_stride as int, u@.len() as int),
            reaches(n as int, v_stride as int, v@.len() as int),
            v@ == placed(
                b@,
                q as int,
                p as int,
                transpose,
                u@,
                u_stride as int,
                old(v)@,
                v_stride as int,
                false,
                j as int,
            ),
    {
        proof {
            lemma_mul_le(j as int, n - 1, v_stride as int, v_stride as int);
        }
        let s = contract_row(b, u, u_stride, q, p, transpose, j);
        v[j * v_stride] = s;
    }
}

/// `v[j * v_stride] += Σ_i B[j, i] u[i * u_stride]` for `j = 0, 1, …`, with the transpose of `B`
/// where asked; the other entries of `v` stay.
pub fn tensor_contract_accumulate_strided<T: Real>(
    b: &[T],
    u: &[T],
    u_stride: usize,
    v: &mut [T],
    v_stride: usize,
    q: usize,
    p: usize,
    transpose: bool,
)
    requires
        b@.len() >= q * p,
        reaches(inputs(q as int, p as int, transpose), u_stride as int, u@.len() as int),
        reaches(outputs(q as int, p as int, transpose), v_stride as int, old(v)@.len() as int),
    ensures
        final(v)@ == placed(
            b@,
            q as int,
            p as int,
            transpose,
            u@,
            u_stride as int,
            old(v)@,
            v_stride as int,
            true,
            outputs(q as int, p as int, transpose),
        ),
        final(v)@.len() == old(v)@.len(),
{
    let n: usize = if transpose {
        p
    } else {
        q
    };
    let blen: usize = b.len();
    let ulen: usize = u.len();
    let vlen: usize = v.len();
    for j in 0..n
        invariant
            n == outputs(q as int, p as int, transpose),
            b@.len() >= q * p,
            blen == b@.len(),
            ulen == u@.len(),
            vlen == v@.len(),
            v@.len() == old(v)@.len(),
            reaches(inputs(q as int, p as int, transpose), u_stride as int, u@.len() as int),
            reaches(n as int, v_stride as int, v@.len() as int),
            v@ == placed(
                b@,
                q as int,
                p as int,
                transpose,
                u@,
                u_stride as int,
                old(v)@,
                v_stride as int,
                true,
                j as int,
            ),
    {
        proof {
            lemma_mul_le(j as int, n - 1, v_stride as int, v_stride as int);
        }
        let s = contract_row(b, u, u_stride, q, p, transpose, j);
        let at: usize = j * v_stride;
        v[at] = v[at].add(s);
    }
}

/// Multiples of `m` have remainder zero.
pub proof fn lemma_multiple(j: int, m: int)
    requires
        0 <= j,
        0 < m,
    ensures
        (j * m) % m == 0,
        (j * m) / m == j,
{
    lemma_flat(j, j + 1, 0, m);
}

/// `k` is the `j`-th multiple of `m` exactly when quotient and remainder say so.
pub proof fn lemma_multiple_converse(k: int, m: int, j: int)
    requires
        0 <= k,
        0 <= j,
        0 < m,
    ensures
        k % m == 0 && k / m == j <==> k == j * m,
{
    lemma_multiple(j, m);
    vstd::arithmetic::div_mod::lemma_fundamental_div_mod(k, m);
    assert(m * (k / m) == (k / m) * m) by (nonlinear_arith);
}

/// Contraction of contiguous data: `v[j] = Σ_i B[j, i] u[i]`.
pub fn tensor_contract<T: Real>(
    b: &[T],
    u: &[T],
    v: &mut [T],
    q: usize,
    p: usize,
    transpose: bool,
)
    requires
        b@.len() >= q * p,
        u@.len() >= inputs(q as int, p as int, transpose),
        old(v)@.len() >= outputs(q as int, p as int, transpose),
    ensures
        final(v)@.len() == old(v)@.len(),
        forall|k: int|
            0 <= k < old(v)@.len() ==> #[trigger] final(v)@[k] == if k < outputs(
                q as int,
                p as int,
                transpose,
            ) {
                contracted(b@, q as int, p as int, transpose, u@, 1, k)
            } else {
                old(v)@[k]
            },
{
    tensor_contract_strided(b, u, 1, v, 1, q, p, transpose);
    proof {
        lemma_placed(
            b@,
            q as int,
            p as int,
            transpose,
            u@,
            1,
            old(v)@,
            1,
            false,
            outputs(q as int, p as int, transpose),
        );
    }
}

/// Accumulating contraction of contiguous data: `v[j] += Σ_i B[j, i] u[i]`.
pub fn tensor_contract_accumulate<T: Real>(
    b: &[T],
    u: &[T],
    v: &mut [T],
    q: usize,
    p: usize,
    transpose: bool,
)
    requires
        b@.len() >= q * p,
        u@.len() >= inputs(q as int, p as int, transpose),
        old(v)@.len() >= outputs(q as int, p as int, transpose),
    ensures
        final(v)@.len() == old(v)@.len(),
        forall|k: int|
            0 <= k < old(v)@.len() ==> #[trigger] final(v)@[k] == if k < outputs(
                q as int,
                p as int,
                transpose,
            ) {
                old(v)@[k].plus(contracted(b@, q as int, p as int, transpose, u@, 1, k))
            } else {
                old(v)@[k]
            },
{
    tensor_contract_accumulate_strided(b, u, 1, v, 1, q, p, transpose);
    proof {
        lemma_placed(
            b@,
            q as int,
            p as int,
            transpose,
            u@,
            1,
            old(v)@,
            1,
            true,
            outputs(q as int, p as int, transpose),
        );
    }
}

// ── one axis of a tensor ────────────────────────────────────────────────────

/// Products of one output of a contraction along the middle axis of three.
pub open spec fn axis_terms<T: Real>(
    b: Seq<T>,
    p: int,
    transpose: bool,
    m: int,
    inner: int,
    u: Seq<T>,
    o: int,
    j: int,
    l: int,
) -> spec_fn(int) -> T {
    |i: int| coefficient(b, p, transpose, j, i).times(u[(o * m + i) * inner + l])
}

/// Contraction along the middle axis of an `outer × m × inner` array, row-major.
pub open spec fn axis<T: Real>(
    b: Seq<T>,
    q: int,
    p: int,
    transpose: bool,
    outer: int,
    inner: int,
    u: Seq<T>,
) -> Seq<T> {
    let m = inputs(q, p, transpose);
    let n = outputs(q, p, transpose);
    Seq::new(
        (outer * n * inner) as nat,
        |k: int|
            sum(
                m,
                axis_terms(
                    b,
                    p,
                    transpose,
                    m,
                    inner,
                    u,
                    k / inner / n,
                    k / inner % n,
                    k % inner,
                ),
            ),
    )
}

/// Computes [`axis`].
pub fn contract_axis<T: Real>(
    b: &Vec<T>,
    q: usize,
    p: usize,
    transpose: bool,
    outer: usize,
    inner: usize,
    u: &[T],
) -> (r: Vec<T>)
    requires
        b@.len() == q * p,
        q * p <= usize::MAX,
        u@.len() == outer * inputs(q as int, p as int, transpose) * inner,
        outer * inputs(q as int, p as int, transpose) * inner <= usize::MAX,
        outer * outputs(q as int, p as int, transpose) <= usize::MAX,
        outer * outputs(q as int, p as int, transpose) * inner <= usize::MAX,
    ensures
        r@ == axis(b@, q as int, p as int, transpose, outer as int, inner as int, u@),
        r@.len() == outer * outputs(q as int, p as int, transpose) * inner,
{
    let m: usize = if transpose {
        q
    } else {
        p
    };
    let n: usize = if transpose {
        p
    } else {
        q
    };
    let ghost goal = axis(b@, q as int, p as int, transpose, outer as int, inner as int, u@);
    let total: usize = outer * n * inner;
    let mut r: Vec<T> = Vec::new();
    for k in 0..total
        invariant
            m == inputs(q as int, p as int, transpose),
            n == outputs(q as int, p as int, transpose),
            b@.len() == q * p,
            q * p <= usize::MAX,
            u@.len() == outer * m * inner,
            outer * m * inner <= usize::MAX,
            total == outer * n * inner,
            goal == axis(b@, q as int, p as int, transpose, outer as int, inner as int, u@),
            r@.len() == k,
            forall|i: int| 0 <= i < k ==> #[trigger] r@[i] == goal[i],
    {
        proof {
            lemma_split3(k as int, outer as int, n as int, inner as int);
        }
        let l: usize = k % inner;
        let row: usize = k / inner;
        let j: usize = row % n;
        let o: usize = row / n;
        let mut s = T::zero();
        for i in 0..m
            invariant
                m == inputs(q as int, p as int, transpose),
                n == outputs(q as int, p as int, transpose),
                o < outer,
                j < n,
                l < inner,
                b@.len() == q * p,
                q * p <= usize::MAX,
                u@.len() == outer * m * inner,
                outer * m * inner <= usize::MAX,
                s == sum(
                    i as int,
                    axis_terms(
                        b@,
                        p as int,
                        transpose,
                        m as int,
                        inner as int,
                        u@,
                        o as int,
                        j as int,
                        l as int,
                    ),
                ),
        {
            proof {
                lemma_flat3(o as int, outer as int, i as int, m as int, l as int, inner as int);
                lemma_mul_le(o as int, o as int, m as int, m as int);
                lemma_mul_le(o * m + i, o * m + i, 1, inner as int);
                if transpose {
                    lemma_flat(i as int, q as int, j as int, p as int);
                    lemma_mul_le(i as int, i as int, p as int, p as int);
                } else {
                    lemma_flat(j as int, q as int, i as int, p as int);
                    lemma_mul_le(j as int, j as int, p as int, p as int);
                }
            }
            let c = if transpose {
                b[i * p + j]
            } else {
                b[j * p + i]
            };
            s = s.add(c.mul(u[(o * m + i) * inner + l]));
        }
        r.push(s);
    }
    assert(r@ =~= goal);
    r
}

// ── interleaved components ──────────────────────────────────────────────────

/// Every `stride`-th entry of `u`, starting at `offset`.
pub open spec fn picked<T>(u: Seq<T>, n: int, stride: int, offset: int) -> Seq<T> {
    Seq::new(n as nat, |i: int| u[i * stride + offset])
}

/// Computes [`picked`].
pub fn pick<T: Real>(u: &[T], n: usize, stride: usize, offset: usize) -> (r: Vec<T>)
    requires
        offset < stride,
        u@.len() == n * stride,
        n * stride <= usize::MAX,
    ensures
        r@ == picked(u@, n as int, stride as int, offset as int),
{
    let mut r: Vec<T> = Vec::new();
    for i in 0..n
        invariant
            offset < stride,
            u@.len() == n * stride,
            n * stride <= usize::MAX,
            r@.len() == i,
            forall|k: int|
                0 <= k < i ==> #[trigger] r@[k] == picked(
                    u@,
                    n as int,
                    stride as int,
                    offset as int,
                )[k],
    {
        proof {
            lemma_flat(i as int, n as int, offset as int, stride as int);
            lemma_mul_le(i as int, i as int, stride as int, stride as int);
        }
        r.push(u[i * stride + offset]);
    }
    assert(r@ =~= picked(u@, n as int, stride as int, offset as int));
    r
}

/// Writes `r` at every `stride`-th entry of `v`, starting at `offset`; the others stay.
pub fn place<T: Real>(r: &Vec<T>, v: &mut Vec<T>, stride: usize, offset: usize)
    requires
        offset < stride,
        old(v)@.len() == r@.len() * stride,
        old(v)@.len() <= usize::MAX,
    ensures
        final(v)@.len() == old(v)@.len(),
        forall|k: int|
            0 <= k < final(v)@.len() ==> #[trigger] final(v)@[k] == if k % (stride as int) == offset {
                r@[k / (stride as int)]
            } else {
                old(v)@[k]
            },
{
    let n: usize = r.len();
    for i in 0..n
        invariant
            n == r@.len(),
            offset < stride,
            v@.len() == n * stride,
            old(v)@.len() == n * stride,
            v@.len() <= usize::MAX,
            forall|k: int|
                0 <= k < v@.len() ==> #[trigger] v@[k] == if k % (stride as int) == offset && k / (
                stride as int) < i {
                    r@[k / (stride as int)]
                } else {
                    old(v)@[k]
                },
    {
        proof {
            lemma_flat(i as int, n as int, offset as int, stride as int);
            lemma_mul_le(i as int, i as int, stride as int, stride as int);
        }
        let at: usize = i * stride + offset;
        let ghost before = v@;
        v.set(at, r[i]);
        assert forall|k: int| 0 <= k < v@.len() implies #[trigger] v@[k] == if k % (stride as int)
            == offset && k / (stride as int) < i + 1 {
            r@[k / (stride as int)]
        } else {
            old(v)@[k]
        } by {
            lemma_split(k, n as int, stride as int);
            if k != at {
                assert(v@[k] == before[k]);
            }
        }
    }
    assert forall|k: int| 0 <= k < v@.len() implies #[trigger] v@[k] == if k % (stride as int)
        == offset {
        r@[k / (stride as int)]
    } else {
        old(v)@[k]
    } by {
        lemma_split(k, n as int, stride as int);
    }
}

} // verus!
