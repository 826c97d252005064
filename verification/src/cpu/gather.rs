//! Gathering from and scattering into a global vector through an index map.

use vstd::prelude::*;

use crate::error::{ErrorKind, ReedResult};
use crate::scalar::Real;
#[allow(unused_imports)]
use crate::scalar::{
    exact_ring, inner, lemma_plus_assoc, lemma_plus_zero, lemma_products_update, lemma_sum_ext,
    products, sum,
};

verus! {

/// The first position in `l..n` that has a fault, or `n`.
pub open spec fn first_fault(f: spec_fn(int) -> Option<Seq<char>>, l: int, n: int) -> int
    decreases n - l,
{
    if l >= n {
        n
    } else if f(l) is Some {
        l
    } else {
        first_fault(f, l + 1, n)
    }
}

/// The fault that stops a pass over `0..n`, if there is one.
pub open spec fn stopping_fault(f: spec_fn(int) -> Option<Seq<char>>, n: int) -> Option<Seq<char>> {
    if first_fault(f, 0, n) < n {
        f(first_fault(f, 0, n))
    } else {
        None
    }
}

/// `v` with its first `n` entries replaced by `u[g(0)], …, u[g(n - 1)]`.
pub open spec fn gathered<T>(g: spec_fn(int) -> int, n: int, u: Seq<T>, v: Seq<T>) -> Seq<T> {
    Seq::new(
        v.len(),
        |l: int|
            if l < n {
                u[g(l)]
            } else {
                v[l]
            },
    )
}

/// `v` after adding `u[0]` at `g(0)`, then `u[1]` at `g(1)`, up to `u[n - 1]` at `g(n - 1)`.
pub open spec fn scattered<T: Real>(g: spec_fn(int) -> int, n: int, u: Seq<T>, v: Seq<T>) -> Seq<T>
    decreases n,
{
    if n <= 0 {
        v
    } else {
        let w = scattered(g, n - 1, u, v);
        w.update(g(n - 1), w[g(n - 1)].plus(u[n - 1]))
    }
}

/// A map from local positions to global indices, some of which may be faulty.
pub trait LocalMap {
    /// The map is valid.
    spec fn usable(&self) -> bool;

    /// Number of local positions.
    spec fn count(&self) -> int;

    /// Length of the global vector.
    spec fn global(&self) -> int;

    /// Global index of each local position.
    spec fn targets(&self) -> spec_fn(int) -> int;

    /// What is wrong with each local position.
    spec fn faults(&self) -> spec_fn(int) -> Option<Seq<char>>;

    /// Global index of local position `l`, or its fault; no position before it is faulty.
    fn locate(&self, l: usize) -> (r: ReedResult<usize>)
        requires
            self.usable(),
            l < self.count(),
            forall|i: int| 0 <= i < l ==> #[trigger] (self.faults())(i) is None,
        ensures
            match r {
                Ok(g) => {
                    &&& (self.faults())(l as int) is None
                    &&& g == (self.targets())(l as int)
                    &&& g < self.global()
                },
                Err(e) => (self.faults())(l as int) matches Some(m) && e@ == (
                    ErrorKind::ElemRestriction,
                    m,
                ),
            },
    ;
}

/// Positions before a fault-free prefix do not change where the first fault lies.
pub proof fn lemma_first_fault(f: spec_fn(int) -> Option<Seq<char>>, l: int, n: int)
    requires
        0 <= l <= n,
        forall|i: int| 0 <= i < l ==> #[trigger] f(i) is None,
    ensures
        first_fault(f, 0, n) == first_fault(f, l, n),
        l < n && f(l) is Some ==> first_fault(f, 0, n) == l,
        l == n ==> first_fault(f, 0, n) == n,
    decreases l,
{
    if l > 0 {
        lemma_first_fault(f, l - 1, n);
        assert(f(l - 1) is None);
    }
    assert(l < n && f(l) is Some ==> first_fault(f, l, n) == l);
    assert(l == n ==> first_fault(f, l, n) == n);
}

/// Before the first fault nothing is faulty.
pub proof fn lemma_before_first_fault(f: spec_fn(int) -> Option<Seq<char>>, l: int, n: int, i: int)
    requires
        l <= i < first_fault(f, l, n),
        l <= n,
    ensures
        f(i) is None,
        l <= first_fault(f, l, n) <= n,
    decreases n - l,
{
    if l < n && f(l) is None && l < i {
        lemma_before_first_fault(f, l + 1, n, i);
    }
    lemma_first_fault_range(f, l, n);
}

/// The first fault lies in the range searched.
pub proof fn lemma_first_fault_range(f: spec_fn(int) -> Option<Seq<char>>, l: int, n: int)
    requires
        l <= n,
    ensures
        l <= first_fault(f, l, n) <= n,
        first_fault(f, l, n) < n ==> f(first_fault(f, l, n)) is Some,
    decreases n - l,
{
    if l < n && f(l) is None {
        lemma_first_fault_range(f, l + 1, n);
    }
}

/// Scattering keeps the length.
pub proof fn lemma_scattered_len<T: Real>(g: spec_fn(int) -> int, n: int, u: Seq<T>, v: Seq<T>)
    requires
        forall|l: int| 0 <= l < n ==> 0 <= #[trigger] g(l) < v.len(),
    ensures
        scattered(g, n, u, v).len() == v.len(),
    decreases n,
{
    if n > 0 {
        lemma_scattered_len(g, n - 1, u, v);
        assert(0 <= g(n - 1) < v.len());
    }
}

/// `v[l] = u[g(l)]` for every local position up to the first fault.
pub fn gather<T: Real, M: LocalMap>(map: &M, n: usize, u: &[T], v: &mut [T]) -> (r: ReedResult<()>)
    requires
        map.usable(),
        map.count() == n,
        map.global() == u@.len(),
        old(v)@.len() == n,
    ensures
        final(v)@ == gathered(
            map.targets(),
            first_fault(map.faults(), 0, n as int),
            u@,
            old(v)@,
        ),
        match stopping_fault(map.faults(), n as int) {
            Some(m) => r matches Err(e) && e@ == (ErrorKind::ElemRestriction, m),
            None => r is Ok,
        },
{
    for l in 0..n
        invariant
            map.usable(),
            map.count() == n,
            map.global() == u@.len(),
            old(v)@.len() == n,
            v@ == gathered(map.targets(), l as int, u@, old(v)@),
            forall|i: int| 0 <= i < l ==> #[trigger] (map.faults())(i) is None,
    {
        match map.locate(l) {
            Ok(g) => {
                v[l] = u[g];
                assert(v@ =~= gathered(map.targets(), l + 1, u@, old(v)@));
            },
            Err(e) => {
                proof {
                    lemma_first_fault(map.faults(), l as int, n as int);
                }
                return Err(e);
            },
        }
    }
    proof {
        lemma_first_fault(map.faults(), n as int, n as int);
    }
    Ok(())
}

/// `v[g(l)] += u[l]` for every local position up to the first fault.
pub fn scatter<T: Real, M: LocalMap>(map: &M, n: usize, u: &[T], v: &mut [T]) -> (r: ReedResult<()>)
    requires
        map.usable(),
        map.count() == n,
        map.global() == old(v)@.len(),
        u@.len() == n,
    ensures
        final(v)@ == scattered(
            map.targets(),
            first_fault(map.faults(), 0, n as int),
            u@,
            old(v)@,
        ),
        final(v)@.len() == old(v)@.len(),
        match stopping_fault(map.faults(), n as int) {
            Some(m) => r matches Err(e) && e@ == (ErrorKind::ElemRestriction, m),
            None => r is Ok,
        },
{
    for l in 0..n
        invariant
            map.usable(),
            map.count() == n,
            map.global() == old(v)@.len(),
            v@.len() == old(v)@.len(),
            u@.len() == n,
            v@ == scattered(map.targets(), l as int, u@, old(v)@),
            forall|i: int| 0 <= i < l ==> #[trigger] (map.faults())(i) is None,
    {
        match map.locate(l) {
            Ok(g) => {
                v[g] = v[g].add(u[l]);
            },
            Err(e) => {
                proof {
                    lemma_first_fault(map.faults(), l as int, n as int);
                }
                return Err(e);
            },
        }
    }
    proof {
        lemma_first_fault(map.faults(), n as int, n as int);
    }
    Ok(())
}

/// Scattering is the transpose of gathering: pairing the scattered vector with `u` adds to the
/// pairing of `v` with `u` the pairing of the gathered vector with `w`.
pub proof fn lemma_scatter_adjoint<T: Real>(
    g: spec_fn(int) -> int,
    n: int,
    u: Seq<T>,
    w: Seq<T>,
    v: Seq<T>,
    x: Seq<T>,
)
    requires
        exact_ring::<T>(),
        0 <= n <= w.len(),
        n <= x.len(),
        u.len() == v.len(),
        forall|l: int| 0 <= l < n ==> 0 <= #[trigger] g(l) < v.len(),
    ensures
        inner(u, scattered(g, n, w, v)) == inner(u, v).plus(
            sum(n, products(gathered(g, n, u, x), w)),
        ),
    decreases n,
{
    if n == 0 {
        lemma_plus_zero(inner(u, v));
    } else {
        lemma_scatter_adjoint(g, n - 1, u, w, v, x);
        let s = scattered(g, n - 1, w, v);
        let j = g(n - 1);
        assert(0 <= g(n - 1) < v.len());
        lemma_scattered_len(g, n - 1, w, v);
        lemma_products_update(u.len() as int, u, s, j, w[n - 1]);
        let before = products(gathered(g, n - 1, u, x), w);
        let after = products(gathered(g, n, u, x), w);
        assert forall|i: int| 0 <= i < n - 1 implies #[trigger] before(i) == after(i) by {}
        lemma_sum_ext(n - 1, before, after);
        assert(after(n - 1) == u[j].times(w[n - 1]));
        lemma_plus_assoc(inner(u, v), sum(n - 1, after), after(n - 1));
    }
}

/// `start` after adding, one after the other, the entries among the first `n` of `u` that map to
/// `i`.
pub open spec fn accumulated<T: Real>(
    g: spec_fn(int) -> int,
    n: int,
    u: Seq<T>,
    i: int,
    start: T,
) -> T
    decreases n,
{
    if n <= 0 {
        start
    } else if g(n - 1) == i {
        accumulated(g, n - 1, u, i, start).plus(u[n - 1])
    } else {
        accumulated(g, n - 1, u, i, start)
    }
}

/// Scattering adds to each entry, in order, what maps to it.
pub proof fn lemma_scatter_accumulates<T: Real>(
    g: spec_fn(int) -> int,
    n: int,
    u: Seq<T>,
    v: Seq<T>,
    i: int,
)
    requires
        forall|l: int| 0 <= l < n ==> 0 <= #[trigger] g(l) < v.len(),
        0 <= i < v.len(),
    ensures
        scattered(g, n, u, v)[i] == accumulated(g, n, u, i, v[i]),
    decreases n,
{
    if n > 0 {
        lemma_scatter_accumulates(g, n - 1, u, v, i);
        lemma_scattered_len(g, n - 1, u, v);
        assert(0 <= g(n - 1) < v.len());
    }
}

/// What the local positions contribute to global index `i`: the entries of those that map to it.
pub open spec fn shares<T: Real>(g: spec_fn(int) -> int, u: Seq<T>, i: int) -> spec_fn(int) -> T {
    |l: int|
        if g(l) == i {
            u[l]
        } else {
            T::zero_val()
        }
}

/// Scattering adds to each entry the sum of what maps to it.
pub proof fn lemma_scatter_adds<T: Real>(
    g: spec_fn(int) -> int,
    n: int,
    u: Seq<T>,
    v: Seq<T>,
    i: int,
)
    requires
        exact_ring::<T>(),
        forall|l: int| 0 <= l < n ==> 0 <= #[trigger] g(l) < v.len(),
        0 <= i < v.len(),
    ensures
        scattered(g, n, u, v)[i] == v[i].plus(sum(n, shares(g, u, i))),
    decreases n,
{
    lemma_plus_zero(v[i]);
    if n > 0 {
        let f = shares(g, u, i);
        lemma_scatter_adds(g, n - 1, u, v, i);
        lemma_scattered_len(g, n - 1, u, v);
        assert(0 <= g(n - 1) < v.len());
        lemma_plus_assoc(v[i], sum(n - 1, f), f(n - 1));
        lemma_plus_zero(sum(n - 1, f));
    }
}

/// Scattering leaves an entry alone that nothing maps to.
pub proof fn lemma_scatter_keeps<T: Real>(
    g: spec_fn(int) -> int,
    n: int,
    u: Seq<T>,
    v: Seq<T>,
    i: int,
)
    requires
        forall|l: int| 0 <= l < n ==> 0 <= #[trigger] g(l) < v.len(),
        forall|l: int| 0 <= l < n ==> #[trigger] g(l) != i,
        0 <= i < v.len(),
    ensures
        scattered(g, n, u, v)[i] == v[i],
    decreases n,
{
    if n > 0 {
        lemma_scatter_keeps(g, n - 1, u, v, i);
        lemma_scattered_len(g, n - 1, u, v);
        assert(0 <= g(n - 1) < v.len());
    }
}

} // verus!
