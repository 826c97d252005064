//! Fields and integers in exact arithmetic.

use vstd::prelude::*;

use crate::scalar::Real;
#[allow(unused_imports)]
use crate::scalar::{
    exact_field, exact_ring, lemma_distribute, lemma_minus, lemma_negated, lemma_negated_unique,
    lemma_over, lemma_plus_assoc, lemma_plus_comm, lemma_plus_zero, lemma_times_assoc,
    lemma_times_comm, lemma_times_negated, lemma_times_one, lemma_times_zero, ratio_val,
};

verus! {

// ── rings ───────────────────────────────────────────────────────────────────

/// The last two terms of a sum can be exchanged.
pub proof fn lemma_plus_swap<T: Real>(a: T, b: T, c: T)
    requires
        exact_ring::<T>(),
    ensures
        a.plus(b).plus(c) == a.plus(c).plus(b),
{
    lemma_plus_assoc(a, b, c);
    lemma_plus_comm(b, c);
    lemma_plus_assoc(a, c, b);
}

/// The last two factors of a product can be exchanged.
pub proof fn lemma_times_swap<T: Real>(a: T, b: T, c: T)
    requires
        exact_ring::<T>(),
    ensures
        a.times(b).times(c) == a.times(c).times(b),
{
    lemma_times_assoc(a, b, c);
    lemma_times_comm(b, c);
    lemma_times_assoc(a, c, b);
}

/// Factors of a product of products can be exchanged crosswise.
pub proof fn lemma_times_cross<T: Real>(a: T, b: T, c: T, d: T)
    requires
        exact_ring::<T>(),
    ensures
        a.times(b).times(c.times(d)) == a.times(c).times(b.times(d)),
{
    lemma_times_assoc(a, b, c.times(d));
    lemma_times_assoc(b, c, d);
    lemma_times_comm(b, c);
    lemma_times_assoc(c, b, d);
    lemma_times_assoc(a, c, b.times(d));
}

/// Adding back what was taken away.
pub proof fn lemma_minus_plus<T: Real>(a: T, b: T)
    requires
        exact_ring::<T>(),
    ensures
        a.minus(b).plus(b) == a,
        a.plus(b).minus(b) == a,
{
    lemma_minus(a, b);
    lemma_plus_assoc(a, b.negated(), b);
    lemma_negated(b);
    lemma_plus_zero(a);
    lemma_minus(a.plus(b), b);
    lemma_plus_assoc(a, b, b.negated());
}

/// A number minus itself.
pub proof fn lemma_minus_self<T: Real>(a: T)
    requires
        exact_ring::<T>(),
    ensures
        a.minus(a) == T::zero_val(),
{
    lemma_minus(a, a);
    lemma_negated(a);
}

/// A difference is zero only for equal numbers.
pub proof fn lemma_minus_zero<T: Real>(a: T, b: T)
    requires
        exact_ring::<T>(),
    ensures
        a.minus(b) == T::zero_val() <==> a == b,
{
    lemma_minus_self(a);
    lemma_minus_plus(a, b);
    lemma_plus_zero(b);
}

/// Differences in the two orders are negations of each other.
pub proof fn lemma_minus_flip<T: Real>(a: T, b: T)
    requires
        exact_ring::<T>(),
    ensures
        a.minus(b) == b.minus(a).negated(),
{
    lemma_minus_plus(b, a);
    lemma_minus(a, b);
    // (b - a) + (a - b) == 0
    lemma_plus_assoc(b.minus(a), a, b.negated());
    lemma_negated(b);
    lemma_negated_unique(b.minus(a), a.minus(b));
}

/// Steps add up.
pub proof fn lemma_minus_chain<T: Real>(a: T, b: T, c: T)
    requires
        exact_ring::<T>(),
    ensures
        a.minus(b).plus(b.minus(c)) == a.minus(c),
{
    lemma_minus(b, c);
    lemma_plus_assoc(a.minus(b), b, c.negated());
    lemma_minus_plus(a, b);
    lemma_minus(a, c);
}

/// Multiplication distributes over subtraction.
pub proof fn lemma_distribute_minus<T: Real>(a: T, b: T, c: T)
    requires
        exact_ring::<T>(),
    ensures
        a.times(b.minus(c)) == a.times(b).minus(a.times(c)),
        b.minus(c).times(a) == b.times(a).minus(c.times(a)),
{
    lemma_minus(b, c);
    lemma_distribute(a, b, c.negated());
    lemma_times_negated(a, c);
    lemma_minus(a.times(b), a.times(c));
    lemma_times_comm(a, b.minus(c));
    lemma_times_comm(a, b);
    lemma_times_comm(a, c);
}

/// The negation of a sum.
pub proof fn lemma_negated_sum<T: Real>(a: T, b: T)
    requires
        exact_ring::<T>(),
    ensures
        a.plus(b).negated() == a.negated().plus(b.negated()),
{
    let (na, nb) = (a.negated(), b.negated());
    lemma_plus_assoc(a, b, na.plus(nb));
    lemma_plus_comm(na, nb);
    lemma_plus_assoc(b, nb, na);
    lemma_negated(a);
    lemma_negated(b);
    lemma_plus_zero(na);
    lemma_negated_unique(a.plus(b), na.plus(nb));
}

/// The negation of a negation.
pub proof fn lemma_negated_twice<T: Real>(a: T)
    requires
        exact_ring::<T>(),
    ensures
        a.negated().negated() == a,
{
    lemma_negated(a);
    lemma_negated_unique(a.negated(), a);
}

// ── fields ──────────────────────────────────────────────────────────────────

/// The reciprocal.
pub open spec fn recip<T: Real>(a: T) -> T {
    T::one_val().over(a)
}

/// A number times its reciprocal.
pub proof fn lemma_recip<T: Real>(a: T)
    requires
        exact_field::<T>(),
        a != T::zero_val(),
    ensures
        exact_ring::<T>(),
        a.times(recip(a)) == T::one_val(),
        recip(a).times(a) == T::one_val(),
        recip(a) != T::zero_val(),
{
    lemma_over(T::one_val(), a);
    lemma_times_comm(a, recip(a));
    lemma_times_zero(a);
}

/// A product is zero only if a factor is.
pub proof fn lemma_product_nonzero<T: Real>(a: T, b: T)
    requires
        exact_field::<T>(),
        a != T::zero_val(),
        b != T::zero_val(),
    ensures
        a.times(b) != T::zero_val(),
{
    lemma_recip(a);
    // recip(a) * (a * b) == b
    lemma_times_assoc(recip(a), a, b);
    lemma_times_one(b);
    lemma_times_zero(recip(a));
}

/// The reciprocal is the only number with this product.
pub proof fn lemma_recip_unique<T: Real>(a: T, b: T)
    requires
        exact_field::<T>(),
        a.times(b) == T::one_val(),
    ensures
        a != T::zero_val(),
        b == recip(a),
{
    lemma_over(T::one_val(), a);
    lemma_times_zero(b);
    lemma_recip(a);
    lemma_times_assoc(recip(a), a, b);
    lemma_times_one(b);
    lemma_times_one(recip(a));
}

/// The reciprocal of a product.
pub proof fn lemma_recip_product<T: Real>(a: T, b: T)
    requires
        exact_field::<T>(),
        a != T::zero_val(),
        b != T::zero_val(),
    ensures
        recip(a.times(b)) == recip(a).times(recip(b)),
{
    lemma_recip(a);
    lemma_recip(b);
    lemma_times_cross(a, b, recip(a), recip(b));
    lemma_times_one(T::one_val());
    lemma_recip_unique(a.times(b), recip(a).times(recip(b)));
}

/// The reciprocal of a negation.
pub proof fn lemma_recip_negated<T: Real>(a: T)
    requires
        exact_field::<T>(),
        a != T::zero_val(),
    ensures
        recip(a.negated()) == recip(a).negated(),
{
    lemma_recip(a);
    lemma_times_negated(a, recip(a));
    lemma_times_negated(a.negated(), recip(a));
    lemma_negated_twice(T::one_val());
    // (-a) * (-recip a) == a * recip a
    assert(a.negated().times(recip(a)) == T::one_val().negated());
    assert(a.negated().times(recip(a).negated()) == T::one_val());
    lemma_recip_unique(a.negated(), recip(a).negated());
}

/// Division multiplies by the reciprocal, and undoes multiplication.
pub proof fn lemma_quotient<T: Real>(a: T, b: T)
    requires
        exact_field::<T>(),
    ensures
        exact_ring::<T>(),
        a.over(b) == a.times(recip(b)),
        b != T::zero_val() ==> a.over(b).times(b) == a,
        b != T::zero_val() ==> a.times(b).over(b) == a,
        b != T::zero_val() ==> b.over(b) == T::one_val(),
{
    lemma_over(a, b);
    lemma_over(b, b);
    if b != T::zero_val() {
        lemma_recip(b);
        lemma_times_assoc(a, recip(b), b);
        lemma_over(a.times(b), b);
        lemma_times_assoc(a, b, recip(b));
        lemma_times_one(a);
    }
}

// ── integers ────────────────────────────────────────────────────────────────

/// Integers keep their sums and products, and none but zero is zero.
#[verifier::opaque]
pub open spec fn exact_integers<T: Real>() -> bool {
    &&& T::int_val(0) == T::zero_val()
    &&& T::int_val(1) == T::one_val()
    &&& forall|a: int, b: int|
        #![trigger T::int_val(a), T::int_val(b)]
        T::int_val(a + b) == T::int_val(a).plus(T::int_val(b))
    &&& forall|a: int, b: int|
        #![trigger T::int_val(a), T::int_val(b)]
        T::int_val(a * b) == T::int_val(a).times(T::int_val(b))
    &&& forall|a: int| a != 0 ==> #[trigger] T::int_val(a) != T::zero_val()
}

/// Zero and one.
pub proof fn lemma_int_units<T: Real>()
    requires
        exact_integers::<T>(),
    ensures
        T::int_val(0) == T::zero_val(),
        T::int_val(1) == T::one_val(),
{
    reveal(exact_integers);
}

/// Sums of integers.
pub proof fn lemma_int_plus<T: Real>(a: int, b: int)
    requires
        exact_integers::<T>(),
    ensures
        T::int_val(a + b) == T::int_val(a).plus(T::int_val(b)),
{
    reveal(exact_integers);
}

/// Products of integers.
pub proof fn lemma_int_times<T: Real>(a: int, b: int)
    requires
        exact_integers::<T>(),
    ensures
        T::int_val(a * b) == T::int_val(a).times(T::int_val(b)),
{
    reveal(exact_integers);
}

/// Integers other than zero.
pub proof fn lemma_int_nonzero<T: Real>(a: int)
    requires
        exact_integers::<T>(),
        a != 0,
    ensures
        T::int_val(a) != T::zero_val(),
{
    reveal(exact_integers);
}

/// Negative integers.
pub proof fn lemma_int_negated<T: Real>(a: int)
    requires
        exact_ring::<T>(),
        exact_integers::<T>(),
    ensures
        T::int_val(-a) == T::int_val(a).negated(),
{
    lemma_int_plus::<T>(a, -a);
    lemma_int_units::<T>();
    lemma_negated_unique(T::int_val(a), T::int_val(-a));
}

/// Differences of integers.
pub proof fn lemma_int_minus<T: Real>(a: int, b: int)
    requires
        exact_ring::<T>(),
        exact_integers::<T>(),
    ensures
        T::int_val(a - b) == T::int_val(a).minus(T::int_val(b)),
{
    lemma_int_plus::<T>(a, -b);
    lemma_int_negated::<T>(b);
    lemma_minus(T::int_val(a), T::int_val(b));
}

/// Sums of quotients with one denominator.
pub proof fn lemma_ratio_plus<T: Real>(a: int, b: int, d: int)
    requires
        exact_field::<T>(),
        exact_integers::<T>(),
    ensures
        ratio_val::<T>(a, d).plus(ratio_val::<T>(b, d)) == ratio_val::<T>(a + b, d),
{
    let r = recip(T::int_val(d));
    lemma_quotient(T::int_val(a), T::int_val(d));
    lemma_quotient(T::int_val(b), T::int_val(d));
    lemma_quotient(T::int_val(a + b), T::int_val(d));
    lemma_int_plus::<T>(a, b);
    lemma_distribute(r, T::int_val(a), T::int_val(b));
}

/// A quotient that is an integer.
pub proof fn lemma_ratio_whole<T: Real>(k: int, d: int)
    requires
        exact_field::<T>(),
        exact_integers::<T>(),
        d != 0,
    ensures
        ratio_val::<T>(k * d, d) == T::int_val(k),
{
    lemma_int_times::<T>(k, d);
    lemma_int_nonzero::<T>(d);
    lemma_quotient(T::int_val(k), T::int_val(d));
}

} // verus!
