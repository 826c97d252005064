//! Number types the library computes with.
//!
//! Every kernel is generic in its number type. [`Real`] lists the arithmetic operations a number
//! type provides; each operation is tied to a mathematical function of its arguments, so that
//! results are stated exactly, rounding included. [`Scalar`] is a storage type together with the
//! working type in which reference-element tables are computed before they are stored.
//!
//! Algebraic identities such as commutativity are not part of [`Real`], since rounded arithmetic
//! does not have them. Laws that need them take [`exact_ring`] as a hypothesis.

use vstd::prelude::*;

verus! {

/// A number type with deterministic arithmetic.
///
/// The specification functions default to an unknown value; a verified implementation defines
/// them.
pub trait Real: Sized + Copy + 'static {
    /// The value zero.
    closed spec fn zero_val() -> Self {
        arbitrary()
    }

    /// The value one.
    closed spec fn one_val() -> Self {
        arbitrary()
    }

    /// The integer `n` as a number.
    closed spec fn int_val(n: int) -> Self {
        arbitrary()
    }

    /// The circle constant.
    closed spec fn pi_val() -> Self {
        arbitrary()
    }

    /// The machine epsilon.
    closed spec fn epsilon_val() -> Self {
        arbitrary()
    }

    /// Sum.
    closed spec fn plus(self, rhs: Self) -> Self {
        arbitrary()
    }

    /// Difference.
    closed spec fn minus(self, rhs: Self) -> Self {
        arbitrary()
    }

    /// Product.
    closed spec fn times(self, rhs: Self) -> Self {
        arbitrary()
    }

    /// Quotient.
    closed spec fn over(self, rhs: Self) -> Self {
        arbitrary()
    }

    /// Negation.
    closed spec fn negated(self) -> Self {
        arbitrary()
    }

    /// Absolute value.
    closed spec fn magnitude(self) -> Self {
        arbitrary()
    }

    /// Square root.
    closed spec fn root(self) -> Self {
        arbitrary()
    }

    /// Cosine.
    closed spec fn cosine(self) -> Self {
        arbitrary()
    }

    /// Strictly less.
    closed spec fn less(self, rhs: Self) -> bool {
        arbitrary()
    }

    /// Less or equal.
    closed spec fn at_most(self, rhs: Self) -> bool {
        arbitrary()
    }

    /// Numerically equal.
    closed spec fn same(self, rhs: Self) -> bool {
        arbitrary()
    }

    /// How messages print the number.
    closed spec fn text(self) -> Seq<char> {
        arbitrary()
    }

    fn zero() -> (r: Self)
        ensures
            r == Self::zero_val(),
    ;

    fn one() -> (r: Self)
        ensures
            r == Self::one_val(),
    ;

    fn from_int(n: i64) -> (r: Self)
        ensures
            r == Self::int_val(n as int),
    ;

    fn pi() -> (r: Self)
        ensures
            r == Self::pi_val(),
    ;

    fn epsilon() -> (r: Self)
        ensures
            r == Self::epsilon_val(),
    ;

    fn add(self, rhs: Self) -> (r: Self)
        ensures
            r == self.plus(rhs),
    ;

    fn sub(self, rhs: Self) -> (r: Self)
        ensures
            r == self.minus(rhs),
    ;

    fn mul(self, rhs: Self) -> (r: Self)
        ensures
            r == self.times(rhs),
    ;

    fn div(self, rhs: Self) -> (r: Self)
        ensures
            r == self.over(rhs),
    ;

    fn neg(self) -> (r: Self)
        ensures
            r == self.negated(),
    ;

    fn abs(self) -> (r: Self)
        ensures
            r == self.magnitude(),
    ;

    fn sqrt(self) -> (r: Self)
        ensures
            r == self.root(),
    ;

    fn cos(self) -> (r: Self)
        ensures
            r == self.cosine(),
    ;

    fn lt(self, rhs: Self) -> (r: bool)
        ensures
            r == self.less(rhs),
    ;

    fn le(self, rhs: Self) -> (r: bool)
        ensures
            r == self.at_most(rhs),
    ;

    fn eq_value(self, rhs: Self) -> (r: bool)
        ensures
            r == self.same(rhs),
    ;

    fn to_text(self) -> (r: String)
        ensures
            r@ == self.text(),
    ;
}

/// A storage number type with its working type.
///
/// The specification functions default to an unknown value; a verified implementation defines
/// them.
pub trait Scalar: Real {
    /// The type in which reference-element tables are computed.
    type Work: Real;

    /// The stored value nearest to `w`, if there is one.
    closed spec fn narrowed(w: Self::Work) -> Option<Self> {
        arbitrary()
    }

    /// The working value of a stored one.
    closed spec fn widened(self) -> Self::Work {
        arbitrary()
    }

    fn from_work(w: Self::Work) -> (r: Option<Self>)
        ensures
            r == Self::narrowed(w),
    ;

    fn to_work(self) -> (r: Self::Work)
        ensures
            r == self.widened(),
    ;
}

/// The quotient of two integers, as a number.
pub open spec fn ratio_val<R: Real>(num: int, den: int) -> R {
    R::int_val(num).over(R::int_val(den))
}

/// The quotient of two integers, as a number.
pub fn ratio<R: Real>(num: i64, den: i64) -> (r: R)
    ensures
        r == ratio_val::<R>(num as int, den as int),
{
    R::from_int(num).div(R::from_int(den))
}

// ── sums ────────────────────────────────────────────────────────────────────

/// `((0 + f(0)) + f(1)) + … + f(n - 1)`, added from left to right.
pub open spec fn sum<T: Real>(n: int, f: spec_fn(int) -> T) -> T
    decreases n,
{
    if n <= 0 {
        T::zero_val()
    } else {
        sum(n - 1, f).plus(f(n - 1))
    }
}

/// Sums of equal terms are equal.
pub proof fn lemma_sum_ext<T: Real>(n: int, f: spec_fn(int) -> T, g: spec_fn(int) -> T)
    requires
        forall|i: int| 0 <= i < n ==> #[trigger] f(i) == g(i),
    ensures
        sum(n, f) == sum(n, g),
    decreases n,
{
    if n > 0 {
        lemma_sum_ext(n - 1, f, g);
        assert(f(n - 1) == g(n - 1));
    }
}

/// A vector of `n` zeros.
pub fn zeros<T: Real>(n: usize) -> (r: Vec<T>)
    ensures
        r@ == Seq::new(n as nat, |i: int| T::zero_val()),
{
    let mut r: Vec<T> = Vec::new();
    for i in 0..n
        invariant
            r@.len() == i,
            forall|k: int| 0 <= k < i ==> #[trigger] r@[k] == T::zero_val(),
    {
        r.push(T::zero());
    }
    assert(r@ =~= Seq::new(n as nat, |i: int| T::zero_val()));
    r
}

// ── exact arithmetic ────────────────────────────────────────────────────────

/// The operations of `T` form a commutative ring.
#[verifier::opaque]
pub open spec fn exact_ring<T: Real>() -> bool {
    &&& forall|a: T, b: T| #[trigger] a.plus(b) == b.plus(a)
    &&& forall|a: T, b: T, c: T| #[trigger] a.plus(b).plus(c) == a.plus(b.plus(c))
    &&& forall|a: T| #[trigger] a.plus(T::zero_val()) == a
    &&& forall|a: T| #[trigger] a.negated().plus(a) == T::zero_val()
    &&& forall|a: T, b: T| #[trigger] a.minus(b) == a.plus(b.negated())
    &&& forall|a: T, b: T| #[trigger] a.times(b) == b.times(a)
    &&& forall|a: T, b: T, c: T| #[trigger] a.times(b).times(c) == a.times(b.times(c))
    &&& forall|a: T| #[trigger] a.times(T::one_val()) == a
    &&& forall|a: T, b: T, c: T| #[trigger] a.times(b.plus(c)) == a.times(b).plus(a.times(c))
}

/// The operations of `T` form a field in which numerical equality is equality.
#[verifier::opaque]
pub open spec fn exact_field<T: Real>() -> bool {
    &&& exact_ring::<T>()
    &&& T::one_val() != T::zero_val()
    &&& forall|a: T| a != T::zero_val() ==> #[trigger] a.times(T::one_val().over(a)) == T::one_val()
    &&& forall|a: T, b: T| #[trigger] a.over(b) == a.times(T::one_val().over(b))
    &&& forall|a: T, b: T| #[trigger] a.same(b) <==> a == b
}

/// A field is a ring with reciprocals.
pub proof fn lemma_field<T: Real>(a: T, b: T)
    requires
        exact_field::<T>(),
    ensures
        exact_ring::<T>(),
        a != T::zero_val() ==> a.times(T::one_val().over(a)) == T::one_val(),
        a.same(b) <==> a == b,
{
    reveal(exact_field);
}

/// Division multiplies by the reciprocal.
pub proof fn lemma_over<T: Real>(a: T, b: T)
    requires
        exact_field::<T>(),
    ensures
        exact_ring::<T>(),
        a.over(b) == a.times(T::one_val().over(b)),
        b != T::zero_val() ==> b.times(T::one_val().over(b)) == T::one_val(),
        T::one_val() != T::zero_val(),
{
    reveal(exact_field);
}

/// One is neutral.
pub proof fn lemma_times_one<T: Real>(a: T)
    requires
        exact_ring::<T>(),
    ensures
        a.times(T::one_val()) == a,
        T::one_val().times(a) == a,
{
    reveal(exact_ring);
    assert(T::one_val().times(a) == a.times(T::one_val()));
}

/// Addition commutes.
pub proof fn lemma_plus_comm<T: Real>(a: T, b: T)
    requires
        exact_ring::<T>(),
    ensures
        a.plus(b) == b.plus(a),
{
    reveal(exact_ring);
}

/// Addition associates.
pub proof fn lemma_plus_assoc<T: Real>(a: T, b: T, c: T)
    requires
        exact_ring::<T>(),
    ensures
        a.plus(b).plus(c) == a.plus(b.plus(c)),
{
    reveal(exact_ring);
}

/// Zero is neutral.
pub proof fn lemma_plus_zero<T: Real>(a: T)
    requires
        exact_ring::<T>(),
    ensures
        a.plus(T::zero_val()) == a,
        T::zero_val().plus(a) == a,
{
    reveal(exact_ring);
    assert(T::zero_val().plus(a) == a.plus(T::zero_val()));
}

/// Subtraction adds the negation.
pub proof fn lemma_minus<T: Real>(a: T, b: T)
    requires
        exact_ring::<T>(),
    ensures
        a.minus(b) == a.plus(b.negated()),
{
    reveal(exact_ring);
}

/// A number and its negation cancel.
pub proof fn lemma_negated<T: Real>(a: T)
    requires
        exact_ring::<T>(),
    ensures
        a.plus(a.negated()) == T::zero_val(),
        a.negated().plus(a) == T::zero_val(),
{
    reveal(exact_ring);
    assert(a.plus(a.negated()) == a.negated().plus(a));
}

/// Multiplication commutes.
pub proof fn lemma_times_comm<T: Real>(a: T, b: T)
    requires
        exact_ring::<T>(),
    ensures
        a.times(b) == b.times(a),
{
    reveal(exact_ring);
}

/// Multiplication associates.
pub proof fn lemma_times_assoc<T: Real>(a: T, b: T, c: T)
    requires
        exact_ring::<T>(),
    ensures
        a.times(b).times(c) == a.times(b.times(c)),
{
    reveal(exact_ring);
}

/// Multiplication distributes over addition.
pub proof fn lemma_distribute<T: Real>(a: T, b: T, c: T)
    requires
        exact_ring::<T>(),
    ensures
        a.times(b.plus(c)) == a.times(b).plus(a.times(c)),
        b.plus(c).times(a) == b.times(a).plus(c.times(a)),
{
    reveal(exact_ring);
    assert(b.plus(c).times(a) == a.times(b.plus(c)));
    assert(b.times(a) == a.times(b));
    assert(c.times(a) == a.times(c));
}

/// Terms of a sum of two sums can be exchanged crosswise.
pub proof fn lemma_plus_cross<T: Real>(a: T, b: T, c: T, d: T)
    requires
        exact_ring::<T>(),
    ensures
        a.plus(b).plus(c.plus(d)) == a.plus(c).plus(b.plus(d)),
{
    lemma_plus_assoc(a, b, c.plus(d));
    lemma_plus_assoc(b, c, d);
    lemma_plus_comm(b, c);
    lemma_plus_assoc(c, b, d);
    lemma_plus_assoc(a, c, b.plus(d));
}

/// A product with zero is zero.
pub proof fn lemma_times_zero<T: Real>(a: T)
    requires
        exact_ring::<T>(),
    ensures
        a.times(T::zero_val()) == T::zero_val(),
        T::zero_val().times(a) == T::zero_val(),
{
    let z = T::zero_val();
    let az = a.times(z);
    lemma_plus_zero(z);
    lemma_distribute(a, z, z);
    // az == az + az, so adding -az on both sides leaves zero == az.
    lemma_negated(az);
    lemma_plus_assoc(az.negated(), az, az);
    lemma_plus_zero(az);
    lemma_times_comm(a, z);
}

/// The additive inverse is unique.
pub proof fn lemma_negated_unique<T: Real>(a: T, b: T)
    requires
        exact_ring::<T>(),
        a.plus(b) == T::zero_val(),
    ensures
        b == a.negated(),
{
    lemma_negated(a);
    lemma_plus_assoc(a.negated(), a, b);
    lemma_plus_zero(b);
    lemma_plus_zero(a.negated());
}

/// A sign moves out of a product.
pub proof fn lemma_times_negated<T: Real>(a: T, b: T)
    requires
        exact_ring::<T>(),
    ensures
        a.times(b.negated()) == a.times(b).negated(),
        a.negated().times(b) == a.times(b).negated(),
{
    lemma_distribute(a, b, b.negated());
    lemma_negated(b);
    lemma_times_zero(a);
    lemma_negated_unique(a.times(b), a.times(b.negated()));
    lemma_distribute(b, a, a.negated());
    lemma_negated(a);
    lemma_times_zero(b);
    lemma_negated_unique(a.times(b), a.negated().times(b));
}

/// A sum of zeros is zero.
pub proof fn lemma_sum_zero<T: Real>(n: int, f: spec_fn(int) -> T)
    requires
        exact_ring::<T>(),
        forall|i: int| 0 <= i < n ==> #[trigger] f(i) == T::zero_val(),
    ensures
        sum(n, f) == T::zero_val(),
    decreases n,
{
    if n > 0 {
        lemma_sum_zero(n - 1, f);
        assert(f(n - 1) == T::zero_val());
        lemma_plus_zero(T::zero_val());
    }
}

/// A sum with at most one term that is not zero is that term.
pub proof fn lemma_sum_single<T: Real>(n: int, i: int, f: spec_fn(int) -> T)
    requires
        exact_ring::<T>(),
        0 <= i < n,
        forall|j: int| 0 <= j < n && j != i ==> #[trigger] f(j) == T::zero_val(),
    ensures
        sum(n, f) == f(i),
    decreases n,
{
    if i == n - 1 {
        lemma_sum_zero(n - 1, f);
        lemma_plus_zero(f(i));
    } else {
        lemma_sum_single(n - 1, i, f);
        assert(f(n - 1) == T::zero_val());
        lemma_plus_zero(f(i));
    }
}

/// The sum of termwise sums is the sum of the sums.
pub proof fn lemma_sum_plus<T: Real>(
    n: int,
    f: spec_fn(int) -> T,
    g: spec_fn(int) -> T,
    h: spec_fn(int) -> T,
)
    requires
        exact_ring::<T>(),
        forall|i: int| 0 <= i < n ==> #[trigger] h(i) == f(i).plus(g(i)),
    ensures
        sum(n, h) == sum(n, f).plus(sum(n, g)),
    decreases n,
{
    if n <= 0 {
        lemma_plus_zero(T::zero_val());
    } else {
        lemma_sum_plus(n - 1, f, g, h);
        assert(h(n - 1) == f(n - 1).plus(g(n - 1)));
        lemma_plus_cross(sum(n - 1, f), sum(n - 1, g), f(n - 1), g(n - 1));
    }
}

/// A common factor moves out of a sum.
pub proof fn lemma_sum_scale<T: Real>(n: int, c: T, f: spec_fn(int) -> T, h: spec_fn(int) -> T)
    requires
        exact_ring::<T>(),
        forall|i: int| 0 <= i < n ==> #[trigger] h(i) == c.times(f(i)),
    ensures
        sum(n, h) == c.times(sum(n, f)),
    decreases n,
{
    if n <= 0 {
        lemma_times_zero(c);
    } else {
        lemma_sum_scale(n - 1, c, f, h);
        assert(h(n - 1) == c.times(f(n - 1)));
        lemma_distribute(c, sum(n - 1, f), f(n - 1));
    }
}

/// The inner sum of a double sum.
pub open spec fn row_sums<T: Real>(m: int, f: spec_fn(int, int) -> T) -> spec_fn(int) -> T {
    |i: int| sum(m, |j: int| f(i, j))
}

/// The inner sum of a double sum, over the first index.
pub open spec fn col_sums<T: Real>(n: int, f: spec_fn(int, int) -> T) -> spec_fn(int) -> T {
    |j: int| sum(n, |i: int| f(i, j))
}

/// The order of a double sum does not matter.
pub proof fn lemma_sum_swap<T: Real>(n: int, m: int, f: spec_fn(int, int) -> T)
    requires
        exact_ring::<T>(),
    ensures
        sum(n, row_sums(m, f)) == sum(m, col_sums(n, f)),
    decreases n,
{
    if n <= 0 {
        assert forall|j: int| 0 <= j < m implies #[trigger] col_sums(n, f)(j)
            == T::zero_val() by {}
        lemma_sum_zero(m, col_sums(n, f));
    } else {
        lemma_sum_swap(n - 1, m, f);
        let last = |j: int| f(n - 1, j);
        assert(row_sums(m, f)(n - 1) == sum(m, last));
        assert forall|j: int| 0 <= j < m implies #[trigger] col_sums(n, f)(j) == col_sums(
            n - 1,
            f,
        )(j).plus(last(j)) by {}
        lemma_sum_plus(m, col_sums(n - 1, f), last, col_sums(n, f));
    }
}

// ── inner products ──────────────────────────────────────────────────────────

/// The products of corresponding entries.
pub open spec fn products<T: Real>(a: Seq<T>, b: Seq<T>) -> spec_fn(int) -> T {
    |i: int| a[i].times(b[i])
}

/// The inner product of two sequences.
pub open spec fn inner<T: Real>(a: Seq<T>, b: Seq<T>) -> T {
    sum(a.len() as int, products(a, b))
}

/// Adding `x` to entry `j` adds `a[j] * x` to a sum of products that covers `j`.
pub proof fn lemma_products_update<T: Real>(n: int, a: Seq<T>, b: Seq<T>, j: int, x: T)
    requires
        exact_ring::<T>(),
        0 <= n <= b.len(),
        0 <= j < b.len(),
    ensures
        sum(n, products(a, b.update(j, b[j].plus(x)))) == if j < n {
            sum(n, products(a, b)).plus(a[j].times(x))
        } else {
            sum(n, products(a, b))
        },
    decreases n,
{
    let c = b.update(j, b[j].plus(x));
    if n > 0 {
        lemma_products_update(n - 1, a, b, j, x);
        let s = sum(n - 1, products(a, b));
        if j == n - 1 {
            lemma_distribute(a[j], b[j], x);
            lemma_plus_assoc(s, a[j].times(b[j]), a[j].times(x));
        } else if j < n - 1 {
            let y = a[n - 1].times(b[n - 1]);
            let z = a[j].times(x);
            assert(products(a, c)(n - 1) == y);
            lemma_plus_assoc(s, z, y);
            lemma_plus_comm(z, y);
            lemma_plus_assoc(s, y, z);
        } else {
            assert(products(a, c)(n - 1) == products(a, b)(n - 1));
        }
    }
}

} // verus!
