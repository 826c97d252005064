//! One-dimensional quadrature and Lagrange tables.
//!
//! Points are roots of Legendre polynomials or of their derivatives, found by Newton's method from
//! a cosine guess.

use vstd::prelude::*;

use crate::error::{ErrorKind, ReedError, ReedResult};
#[allow(unused_imports)]
use crate::error::refused;
use crate::scalar::{ratio, Real};
#[allow(unused_imports)]
use crate::scalar::ratio_val;
use crate::text::Message;
#[allow(unused_imports)]
use crate::text::decimal;

verus! {

/// Most Newton steps taken.
pub const NEWTON_STEPS: usize = 100;

/// The tolerance below which two points count as equal.
pub open spec fn tolerance<R: Real>() -> R {
    ratio_val::<R>(1, 100_000_000_000_000)
}

/// The tolerance below which two points count as equal.
pub(crate) fn point_tolerance<R: Real>() -> (r: R)
    ensures
        r == tolerance::<R>(),
{
    ratio(1, 100_000_000_000_000)
}

// ── Legendre polynomials ────────────────────────────────────────────────────

/// Value of the Legendre polynomial of degree `k` by the three-term recurrence.
pub open spec fn legendre_value<R: Real>(k: int, x: R) -> R
    decreases k,
{
    if k <= 0 {
        R::one_val()
    } else if k == 1 {
        x
    } else {
        let kf = R::int_val(k);
        let a = R::int_val(2).times(kf).minus(R::one_val());
        let b = kf.minus(R::one_val());
        a.times(x).times(legendre_value(k - 1, x)).minus(
            b.times(legendre_value(k - 2, x)),
        ).over(kf)
    }
}

/// Derivative of the Legendre polynomial of degree `n` from two consecutive values.
pub open spec fn legendre_slope<R: Real>(n: int, x: R) -> R {
    if n <= 0 {
        R::zero_val()
    } else {
        R::int_val(n).times(x.times(legendre_value(n, x)).minus(legendre_value(n - 1, x))).over(
            x.times(x).minus(R::one_val()),
        )
    }
}

fn legendre<R: Real>(n: usize, x: R) -> (r: (R, R))
    requires
        n <= i64::MAX,
    ensures
        r.0 == legendre_value(n as int, x),
        r.1 == legendre_slope(n as int, x),
{
    if n == 0 {
        return (R::one(), R::zero());
    }
    let mut previous = R::one();
    let mut value = x;
    let mut k: usize = 1;
    while k < n
        invariant
            1 <= k <= n,
            n <= i64::MAX,
            value == legendre_value(k as int, x),
            previous == legendre_value(k - 1, x),
        decreases n - k,
    {
        k = k + 1;
        let kf = R::from_int(k as i64);
        let a = R::from_int(2).mul(kf).sub(R::one());
        let b = kf.sub(R::one());
        let next = a.mul(x).mul(value).sub(b.mul(previous)).div(kf);
        previous = value;
        value = next;
    }
    let slope = R::from_int(n as i64).mul(x.mul(value).sub(previous)).div(
        x.mul(x).sub(R::one()),
    );
    (value, slope)
}

// ── Gauss points ────────────────────────────────────────────────────────────

/// Newton's method for a root of the Legendre polynomial of degree `n`.
pub open spec fn gauss_newton<R: Real>(n: int, x: R, steps: int) -> R
    decreases steps,
{
    if steps <= 0 {
        x
    } else {
        let dx = legendre_value(n, x).negated().over(legendre_slope(n, x));
        if dx.magnitude().less(tolerance::<R>()) {
            x.plus(dx)
        } else {
            gauss_newton(n, x.plus(dx), steps - 1)
        }
    }
}

/// The `i`-th root of the Legendre polynomial of degree `n`, counted from the right end.
pub open spec fn gauss_root<R: Real>(n: int, i: int) -> R {
    let guess = R::pi_val().times(R::int_val(i).plus(ratio_val(3, 4))).over(
        R::int_val(n).plus(ratio_val(1, 2)),
    ).cosine();
    gauss_newton(n, guess, NEWTON_STEPS as int)
}

/// The weight that belongs to the `i`-th root.
pub open spec fn gauss_root_weight<R: Real>(n: int, i: int) -> R {
    let x = gauss_root::<R>(n, i);
    let slope = legendre_slope(n, x);
    R::int_val(2).over(R::one_val().minus(x.times(x)).times(slope).times(slope))
}

/// Gauss points in increasing order.
pub open spec fn gauss_points<R: Real>(n: int) -> Seq<R> {
    Seq::new(
        n as nat,
        |k: int|
            if 2 * k + 1 < n {
                gauss_root::<R>(n, k).negated()
            } else {
                gauss_root::<R>(n, n - 1 - k)
            },
    )
}

/// Gauss weights.
pub open spec fn gauss_weights<R: Real>(n: int) -> Seq<R> {
    Seq::new(
        n as nat,
        |k: int|
            gauss_root_weight::<R>(
                n,
                if 2 * k + 1 < n {
                    k
                } else {
                    n - 1 - k
                },
            ),
    )
}

fn find_gauss_root<R: Real>(n: usize, i: usize) -> (x: R)
    requires
        i < n <= i64::MAX,
    ensures
        x == gauss_root::<R>(n as int, i as int),
{
    let nf = R::from_int(n as i64);
    let top = R::pi().mul(R::from_int(i as i64).add(ratio(3, 4)));
    let mut x = top.div(nf.add(ratio(1, 2))).cos();
    let ghost guess = x;
    for step in 0..NEWTON_STEPS
        invariant
            n <= i64::MAX,
            gauss_newton(n as int, guess, NEWTON_STEPS as int) == gauss_newton(
                n as int,
                x,
                NEWTON_STEPS - step,
            ),
            gauss_root::<R>(n as int, i as int) == gauss_newton(
                n as int,
                guess,
                NEWTON_STEPS as int,
            ),
    {
        let (value, slope) = legendre(n, x);
        let dx = value.neg().div(slope);
        x = x.add(dx);
        if dx.abs().lt(point_tolerance()) {
            return x;
        }
    }
    x
}

/// Gauss quadrature with `n` points on `[-1, 1]`: points and weights.
pub fn gauss_quadrature<R: Real>(n: usize) -> (r: ReedResult<(Vec<R>, Vec<R>)>)
    requires
        n <= i64::MAX,
    ensures
        r matches Ok(t) && t.0@ == gauss_points::<R>(n as int) && t.1@ == gauss_weights::<R>(
            n as int,
        ),
{
    let mut points: Vec<R> = Vec::new();
    let mut weights: Vec<R> = Vec::new();
    for k in 0..n
        invariant
            n <= i64::MAX,
            points@.len() == k,
            weights@.len() == k,
            forall|j: int| 0 <= j < k ==> #[trigger] points@[j] == gauss_points::<R>(n as int)[j],
            forall|j: int| 0 <= j < k ==> #[trigger] weights@[j] == gauss_weights::<R>(n as int)[j],
    {
        let left = k < n - 1 - k;
        let i: usize = if left {
            k
        } else {
            n - 1 - k
        };
        let x: R = find_gauss_root(n, i);
        let (_, slope) = legendre(n, x);
        let w = R::from_int(2).div(R::one().sub(x.mul(x)).mul(slope).mul(slope));
        points.push(
            if left {
                x.neg()
            } else {
                x
            },
        );
        weights.push(w);
    }
    assert(points@ =~= gauss_points::<R>(n as int));
    assert(weights@ =~= gauss_weights::<R>(n as int));
    Ok((points, weights))
}

// ── Gauss–Lobatto points ────────────────────────────────────────────────────

/// Newton's method for a root of the derivative of the Legendre polynomial of degree `n - 1`.
pub open spec fn lobatto_newton<R: Real>(n: int, x: R, steps: int) -> R
    decreases steps,
{
    if steps <= 0 {
        x
    } else {
        let value = legendre_value(n - 1, x);
        let slope = legendre_slope(n - 1, x);
        let nf = R::int_val(n);
        let bend = R::int_val(2).times(x).times(slope).minus(
            nf.minus(R::one_val()).times(nf).times(value),
        ).over(R::one_val().minus(x.times(x)));
        let dx = slope.negated().over(bend);
        if dx.magnitude().less(tolerance::<R>()) {
            x.plus(dx)
        } else {
            lobatto_newton(n, x.plus(dx), steps - 1)
        }
    }
}

/// The `i`-th Gauss–Lobatto point of `n`: an end point or an inner root.
pub open spec fn lobatto_point<R: Real>(n: int, i: int) -> R {
    if i <= 0 {
        R::int_val(-1)
    } else if i >= n - 1 {
        R::one_val()
    } else {
        let guess = R::pi_val().times(R::int_val(i)).over(
            R::int_val(n).minus(R::one_val()),
        ).cosine().negated();
        lobatto_newton(n, guess, NEWTON_STEPS as int)
    }
}

/// Gauss–Lobatto points in increasing order.
pub open spec fn lobatto_points<R: Real>(n: int) -> Seq<R> {
    Seq::new(n as nat, |i: int| lobatto_point::<R>(n, i))
}

/// Gauss–Lobatto weights.
pub open spec fn lobatto_weights<R: Real>(n: int) -> Seq<R> {
    Seq::new(
        n as nat,
        |i: int|
            {
                let nf = R::int_val(n);
                let value = legendre_value(n - 1, lobatto_point::<R>(n, i));
                R::int_val(2).over(nf.times(nf.minus(R::one_val())).times(value).times(value))
            },
    )
}

/// The message that refuses too few Gauss–Lobatto points.
pub open spec fn lobatto_message(n: nat) -> Seq<char> {
    "gauss_lobatto_nodes requires n>=2, got "@ + decimal(n)
}

fn find_lobatto_root<R: Real>(n: usize, i: usize) -> (x: R)
    requires
        0 < i < n - 1,
        n <= i64::MAX,
    ensures
        x == lobatto_point::<R>(n as int, i as int),
{
    let nf = R::from_int(n as i64);
    let mut x = R::pi().mul(R::from_int(i as i64)).div(nf.sub(R::one())).cos().neg();
    let ghost guess = x;
    for step in 0..NEWTON_STEPS
        invariant
            1 < n <= i64::MAX,
            nf == R::int_val(n as int),
            lobatto_newton(n as int, guess, NEWTON_STEPS as int) == lobatto_newton(
                n as int,
                x,
                NEWTON_STEPS - step,
            ),
            lobatto_point::<R>(n as int, i as int) == lobatto_newton(
                n as int,
                guess,
                NEWTON_STEPS as int,
            ),
    {
        let (value, slope) = legendre(n - 1, x);
        let bend = R::from_int(2).mul(x).mul(slope).sub(nf.sub(R::one()).mul(nf).mul(value)).div(
            R::one().sub(x.mul(x)),
        );
        let dx = slope.neg().div(bend);
        x = x.add(dx);
        if dx.abs().lt(point_tolerance()) {
            return x;
        }
    }
    x
}

/// The `n` Gauss–Lobatto points on `[-1, 1]`.
pub fn gauss_lobatto_nodes<R: Real>(n: usize) -> (r: ReedResult<Vec<R>>)
    requires
        n <= i64::MAX,
    ensures
        n < 2 ==> refused(r, ErrorKind::Basis, lobatto_message(n as nat)),
        n >= 2 ==> (r matches Ok(v) && v@ == lobatto_points::<R>(n as int)),
{
    if n < 2 {
        return Err(
            ReedError::Basis(
                Message::new("gauss_lobatto_nodes requires n>=2, got ").num(n).done(),
            ),
        );
    }
    let mut points: Vec<R> = Vec::new();
    for i in 0..n
        invariant
            2 <= n <= i64::MAX,
            points@.len() == i,
            forall|j: int|
                0 <= j < i ==> #[trigger] points@[j] == lobatto_points::<R>(n as int)[j],
    {
        if i == 0 {
            points.push(R::from_int(-1));
        } else if i == n - 1 {
            points.push(R::one());
        } else {
            points.push(find_lobatto_root(n, i));
        }
    }
    assert(points@ =~= lobatto_points::<R>(n as int));
    Ok(points)
}

/// Gauss–Lobatto quadrature with `n` points on `[-1, 1]`: points and weights.
pub fn gauss_lobatto_quadrature<R: Real>(n: usize) -> (r: ReedResult<(Vec<R>, Vec<R>)>)
    requires
        n <= i64::MAX,
    ensures
        n < 2 ==> refused(r, ErrorKind::Basis, lobatto_message(n as nat)),
        n >= 2 ==> (r matches Ok(t) && t.0@ == lobatto_points::<R>(n as int) && t.1@
            == lobatto_weights::<R>(n as int)),
{
    let points = match gauss_lobatto_nodes::<R>(n) {
        Ok(p) => p,
        Err(e) => {
            return Err(e);
        },
    };
    let nf = R::from_int(n as i64);
    let mut weights: Vec<R> = Vec::new();
    for i in 0..n
        invariant
            2 <= n <= i64::MAX,
            nf == R::int_val(n as int),
            points@ == lobatto_points::<R>(n as int),
            weights@.len() == i,
            forall|j: int|
                0 <= j < i ==> #[trigger] weights@[j] == lobatto_weights::<R>(n as int)[j],
    {
        let (value, _) = legendre(n - 1, points[i]);
        weights.push(
            R::from_int(2).div(nf.mul(nf.sub(R::one())).mul(value).mul(value)),
        );
    }
    assert(weights@ =~= lobatto_weights::<R>(n as int));
    Ok((points, weights))
}

// ── laws ────────────────────────────────────────────────────────────────────

/// Gauss points lie symmetrically about zero and mirrored points have equal weights.
pub proof fn law_gauss_symmetric<R: Real>(n: int, k: int)
    requires
        0 <= k,
        2 * k + 1 < n,
    ensures
        gauss_points::<R>(n)[k] == gauss_points::<R>(n)[n - 1 - k].negated(),
        gauss_weights::<R>(n)[k] == gauss_weights::<R>(n)[n - 1 - k],
{
}

/// Gauss–Lobatto points contain both ends of the interval.
pub proof fn law_lobatto_contains_ends<R: Real>(n: int)
    requires
        n >= 2,
    ensures
        lobatto_points::<R>(n)[0] == R::int_val(-1),
        lobatto_points::<R>(n)[n - 1] == R::one_val(),
{
}

} // verus!
