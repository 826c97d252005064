//! Conversion of tables from the working to the storage number type.

use vstd::prelude::*;

use crate::error::{ErrorKind, ReedError, ReedResult};
#[allow(unused_imports)]
use crate::error::refused;
#[allow(unused_imports)]
use crate::scalar::{sum, Real, Scalar};
use crate::text::Message;

verus! {

/// The first value at or after position `i` that the storage type cannot hold.
pub open spec fn unstorable_from<T: Scalar>(s: Seq<T::Work>, i: int) -> Option<T::Work>
    decreases s.len() - i,
{
    if i >= s.len() {
        None
    } else if T::narrowed(s[i]) is None {
        Some(s[i])
    } else {
        unstorable_from::<T>(s, i + 1)
    }
}

/// The first value that the storage type cannot hold.
pub open spec fn unstorable<T: Scalar>(s: Seq<T::Work>) -> Option<T::Work> {
    unstorable_from::<T>(s, 0)
}

/// The stored values.
pub open spec fn stored<T: Scalar>(s: Seq<T::Work>) -> Seq<T> {
    Seq::new(s.len(), |i: int| T::narrowed(s[i])->0)
}

/// The message that reports a value the storage type cannot hold.
pub open spec fn unstorable_message<R: Real>(head: Seq<char>, w: R) -> Seq<char> {
    head + w.text() + " to scalar"@
}

/// The error of a value the storage type cannot hold.
pub(crate) fn unstorable_error<R: Real>(head: &str, w: R) -> (e: ReedError)
    ensures
        e@ == (ErrorKind::Basis, unstorable_message(head@, w)),
{
    let t = w.to_text();
    ReedError::Basis(Message::new(head).text(t.as_str()).text(" to scalar").done())
}

/// Stores a table, or reports the first value that does not fit.
pub(crate) fn store_all<T: Scalar>(s: &Vec<T::Work>, head: &str) -> (r: ReedResult<Vec<T>>)
    ensures
        match unstorable::<T>(s@) {
            Some(w) => refused(r, ErrorKind::Basis, unstorable_message(head@, w)),
            None => r matches Ok(v) && v@ == stored::<T>(s@),
        },
{
    let mut out: Vec<T> = Vec::new();
    for i in 0..s.len()
        invariant
            out@.len() == i,
            unstorable::<T>(s@) == unstorable_from::<T>(s@, i as int),
            forall|k: int| 0 <= k < i ==> #[trigger] out@[k] == stored::<T>(s@)[k],
    {
        match T::from_work(s[i]) {
            Some(x) => {
                out.push(x);
            },
            None => {
                return Err(unstorable_error(head, s[i]));
            },
        }
    }
    assert(out@ =~= stored::<T>(s@));
    Ok(out)
}

/// The working values of stored ones.
pub open spec fn widened_all<T: Scalar>(s: Seq<T>) -> Seq<T::Work> {
    Seq::new(s.len(), |i: int| s[i].widened())
}

/// Computes [`widened_all`].
pub(crate) fn widen_all<T: Scalar>(s: &Vec<T>) -> (r: Vec<T::Work>)
    ensures
        r@ == widened_all::<T>(s@),
{
    let mut r: Vec<T::Work> = Vec::new();
    for i in 0..s.len()
        invariant
            r@.len() == i,
            forall|k: int| 0 <= k < i ==> #[trigger] r@[k] == s@[k].widened(),
    {
        r.push(s[i].to_work());
    }
    assert(r@ =~= widened_all::<T>(s@));
    r
}

// ── exact storage ───────────────────────────────────────────────────────────

/// The stored value.
pub open spec fn kept<T: Scalar>(w: T::Work) -> T {
    T::narrowed(w)->0
}

/// Every value can be stored and is read back unchanged, and storage keeps zero, sums and products.
#[verifier::opaque]
pub open spec fn exact_storage<T: Scalar>() -> bool {
    &&& forall|w: T::Work| #[trigger] T::narrowed(w) is Some
    &&& forall|w: T::Work| (#[trigger] kept::<T>(w)).widened() == w
    &&& kept::<T>(<T::Work as Real>::zero_val()) == T::zero_val()
    &&& forall|a: T::Work, b: T::Work| #[trigger]
        kept::<T>(a.plus(b)) == kept::<T>(a).plus(kept::<T>(b))
    &&& forall|a: T::Work, b: T::Work| #[trigger]
        kept::<T>(a.times(b)) == kept::<T>(a).times(kept::<T>(b))
}

/// Stored products add up to the stored sum.
pub proof fn lemma_kept_sum<T: Scalar>(
    n: int,
    f: spec_fn(int) -> T::Work,
    s: spec_fn(int) -> T::Work,
    g: spec_fn(int) -> T::Work,
    h: spec_fn(int) -> T,
)
    requires
        exact_storage::<T>(),
        forall|k: int| 0 <= k < n ==> #[trigger] g(k) == f(k).times(s(k)),
        forall|k: int| 0 <= k < n ==> #[trigger] h(k) == kept::<T>(f(k)).times(kept::<T>(s(k))),
    ensures
        sum(n, h) == kept::<T>(sum(n, g)),
    decreases n,
{
    reveal(exact_storage);
    if n > 0 {
        lemma_kept_sum::<T>(n - 1, f, s, g, h);
        assert(g(n - 1) == f(n - 1).times(s(n - 1)));
        assert(h(n - 1) == kept::<T>(f(n - 1)).times(kept::<T>(s(n - 1))));
    }
}

/// Stored values are read back unchanged.
pub proof fn lemma_read_back<T: Scalar>(s: Seq<T::Work>)
    requires
        exact_storage::<T>(),
    ensures
        widened_all::<T>(stored::<T>(s)) == s,
{
    reveal(exact_storage);
    assert forall|i: int| 0 <= i < s.len() implies #[trigger] widened_all::<T>(stored::<T>(s))[i]
        == s[i] by {
        assert(stored::<T>(s)[i] == kept::<T>(s[i]));
    }
    assert(widened_all::<T>(stored::<T>(s)) =~= s);
}

} // verus!
