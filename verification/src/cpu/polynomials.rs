//! Polynomials of degree three or less in three variables with integer coefficients.

use vstd::prelude::*;

#[allow(unused_imports)]
use crate::exact::{
    exact_integers, lemma_int_negated, lemma_int_plus, lemma_int_units, lemma_times_swap,
};
#[allow(unused_imports)]
use crate::linear::lemma_sum_trailing;
use crate::scalar::Real;
#[allow(unused_imports)]
use crate::scalar::{
    exact_ring, lemma_distribute, lemma_minus, lemma_plus_zero, lemma_sum_plus, lemma_sum_scale,
    lemma_sum_single, lemma_times_assoc, lemma_times_comm, lemma_times_negated, lemma_times_one,
    lemma_times_zero, sum,
};

verus! {

/// The coefficients of a polynomial, each under the name of its monomial.
pub struct Cubic {
    pub one: int,
    pub x: int,
    pub y: int,
    pub z: int,
    pub xx: int,
    pub xy: int,
    pub xz: int,
    pub yy: int,
    pub yz: int,
    pub zz: int,
    pub xxx: int,
    pub xxy: int,
    pub xxz: int,
    pub xyy: int,
    pub xyz: int,
    pub xzz: int,
    pub yyy: int,
    pub yyz: int,
    pub yzz: int,
    pub zzz: int,
}

/// Monomial number `i`, in the order of the coefficients.
pub open spec fn monomial<R: Real>(x: R, y: R, z: R, i: int) -> R {
    if i == 0 {
        R::one_val()
    } else if i == 1 {
        x
    } else if i == 2 {
        y
    } else if i == 3 {
        z
    } else if i == 4 {
        x.times(x)
    } else if i == 5 {
        x.times(y)
    } else if i == 6 {
        x.times(z)
    } else if i == 7 {
        y.times(y)
    } else if i == 8 {
        y.times(z)
    } else if i == 9 {
        z.times(z)
    } else if i == 10 {
        x.times(x).times(x)
    } else if i == 11 {
        x.times(x).times(y)
    } else if i == 12 {
        x.times(x).times(z)
    } else if i == 13 {
        x.times(y).times(y)
    } else if i == 14 {
        x.times(y).times(z)
    } else if i == 15 {
        x.times(z).times(z)
    } else if i == 16 {
        y.times(y).times(y)
    } else if i == 17 {
        y.times(y).times(z)
    } else if i == 18 {
        y.times(z).times(z)
    } else {
        z.times(z).times(z)
    }
}

/// Coordinate number `t` of a point.
pub open spec fn coordinate<R: Real>(x: R, y: R, z: R, t: int) -> R {
    if t == 0 {
        x
    } else if t == 1 {
        y
    } else {
        z
    }
}

/// The number of monomial `i` times coordinate `t`, for a monomial of degree two or less.
pub open spec fn raised(t: int, i: int) -> int {
    if t == 0 {
        if i == 0 {
            1
        } else if i == 1 {
            4
        } else if i == 2 {
            5
        } else if i == 3 {
            6
        } else if i == 4 {
            10
        } else if i == 5 {
            11
        } else if i == 6 {
            12
        } else if i == 7 {
            13
        } else if i == 8 {
            14
        } else {
            15
        }
    } else if t == 1 {
        if i == 0 {
            2
        } else if i == 1 {
            5
        } else if i == 2 {
            7
        } else if i == 3 {
            8
        } else if i == 4 {
            11
        } else if i == 5 {
            13
        } else if i == 6 {
            14
        } else if i == 7 {
            16
        } else if i == 8 {
            17
        } else {
            18
        }
    } else {
        if i == 0 {
            3
        } else if i == 1 {
            6
        } else if i == 2 {
            8
        } else if i == 3 {
            9
        } else if i == 4 {
            12
        } else if i == 5 {
            14
        } else if i == 6 {
            15
        } else if i == 7 {
            17
        } else if i == 8 {
            18
        } else {
            19
        }
    }
}

impl Cubic {
    /// Coefficient number `i`.
    pub open spec fn coefficient(self, i: int) -> int {
        if i == 0 {
            self.one
        } else if i == 1 {
            self.x
        } else if i == 2 {
            self.y
        } else if i == 3 {
            self.z
        } else if i == 4 {
            self.xx
        } else if i == 5 {
            self.xy
        } else if i == 6 {
            self.xz
        } else if i == 7 {
            self.yy
        } else if i == 8 {
            self.yz
        } else if i == 9 {
            self.zz
        } else if i == 10 {
            self.xxx
        } else if i == 11 {
            self.xxy
        } else if i == 12 {
            self.xxz
        } else if i == 13 {
            self.xyy
        } else if i == 14 {
            self.xyz
        } else if i == 15 {
            self.xzz
        } else if i == 16 {
            self.yyy
        } else if i == 17 {
            self.yyz
        } else if i == 18 {
            self.yzz
        } else {
            self.zzz
        }
    }

    /// Terms at a point.
    pub open spec fn terms<R: Real>(self, x: R, y: R, z: R) -> spec_fn(int) -> R {
        |i: int| R::int_val(self.coefficient(i)).times(monomial(x, y, z, i))
    }

    /// Value at a point.
    pub open spec fn at<R: Real>(self, x: R, y: R, z: R) -> R {
        sum(20, self.terms(x, y, z))
    }

    /// Whether the degree is two or less.
    pub open spec fn quadratic(self) -> bool {
        &&& self.xxx == 0
        &&& self.xxy == 0
        &&& self.xxz == 0
        &&& self.xyy == 0
        &&& self.xyz == 0
        &&& self.xzz == 0
        &&& self.yyy == 0
        &&& self.yyz == 0
        &&& self.yzz == 0
        &&& self.zzz == 0
    }

    /// The integer `k`.
    pub open spec fn number(k: int) -> Cubic {
        Cubic {
            one: k,
            x: 0,
            y: 0,
            z: 0,
            xx: 0,
            xy: 0,
            xz: 0,
            yy: 0,
            yz: 0,
            zz: 0,
            xxx: 0,
            xxy: 0,
            xxz: 0,
            xyy: 0,
            xyz: 0,
            xzz: 0,
            yyy: 0,
            yyz: 0,
            yzz: 0,
            zzz: 0,
        }
    }

    /// The sum.
    pub open spec fn plus(self, q: Cubic) -> Cubic {
        Cubic {
            one: self.one + q.one,
            x: self.x + q.x,
            y: self.y + q.y,
            z: self.z + q.z,
            xx: self.xx + q.xx,
            xy: self.xy + q.xy,
            xz: self.xz + q.xz,
            yy: self.yy + q.yy,
            yz: self.yz + q.yz,
            zz: self.zz + q.zz,
            xxx: self.xxx + q.xxx,
            xxy: self.xxy + q.xxy,
            xxz: self.xxz + q.xxz,
            xyy: self.xyy + q.xyy,
            xyz: self.xyz + q.xyz,
            xzz: self.xzz + q.xzz,
            yyy: self.yyy + q.yyy,
            yyz: self.yyz + q.yyz,
            yzz: self.yzz + q.yzz,
            zzz: self.zzz + q.zzz,
        }
    }

    /// The opposite.
    pub open spec fn negated(self) -> Cubic {
        Cubic {
            one: -self.one,
            x: -self.x,
            y: -self.y,
            z: -self.z,
            xx: -self.xx,
            xy: -self.xy,
            xz: -self.xz,
            yy: -self.yy,
            yz: -self.yz,
            zz: -self.zz,
            xxx: -self.xxx,
            xxy: -self.xxy,
            xxz: -self.xxz,
            xyy: -self.xyy,
            xyz: -self.xyz,
            xzz: -self.xzz,
            yyy: -self.yyy,
            yyz: -self.yyz,
            yzz: -self.yzz,
            zzz: -self.zzz,
        }
    }

    /// The difference.
    pub open spec fn minus(self, q: Cubic) -> Cubic {
        self.plus(q.negated())
    }

    /// The product of a polynomial of degree two or less with coordinate `t`.
    pub open spec fn by_axis(self, t: int) -> Cubic {
        if t == 0 {
            Cubic {
                one: 0,
                x: self.one,
                y: 0,
                z: 0,
                xx: self.x,
                xy: self.y,
                xz: self.z,
                yy: 0,
                yz: 0,
                zz: 0,
                xxx: self.xx,
                xxy: self.xy,
                xxz: self.xz,
                xyy: self.yy,
                xyz: self.yz,
                xzz: self.zz,
                yyy: 0,
                yyz: 0,
                yzz: 0,
                zzz: 0,
            }
        } else if t == 1 {
            Cubic {
                one: 0,
                x: 0,
                y: self.one,
                z: 0,
                xx: 0,
                xy: self.x,
                xz: 0,
                yy: self.y,
                yz: self.z,
                zz: 0,
                xxx: 0,
                xxy: self.xx,
                xxz: 0,
                xyy: self.xy,
                xyz: self.xz,
                xzz: 0,
                yyy: self.yy,
                yyz: self.yz,
                yzz: self.zz,
                zzz: 0,
            }
        } else {
            Cubic {
                one: 0,
                x: 0,
                y: 0,
                z: self.one,
                xx: 0,
                xy: 0,
                xz: self.x,
                yy: 0,
                yz: self.y,
                zz: self.z,
                xxx: 0,
                xxy: 0,
                xxz: self.xx,
                xyy: 0,
                xyz: self.xy,
                xzz: self.xz,
                yyy: 0,
                yyz: self.yy,
                yzz: self.yz,
                zzz: self.zz,
            }
        }
    }

    /// The derivative along axis `d`.
    pub open spec fn slope(self, d: int) -> Cubic {
        if d == 0 {
            Cubic {
                one: self.x,
                x: 2 * self.xx,
                y: self.xy,
                z: self.xz,
                xx: 3 * self.xxx,
                xy: 2 * self.xxy,
                xz: 2 * self.xxz,
                yy: self.xyy,
                yz: self.xyz,
                zz: self.xzz,
                xxx: 0,
                xxy: 0,
                xxz: 0,
                xyy: 0,
                xyz: 0,
                xzz: 0,
                yyy: 0,
                yyz: 0,
                yzz: 0,
                zzz: 0,
            }
        } else if d == 1 {
            Cubic {
                one: self.y,
                x: self.xy,
                y: 2 * self.yy,
                z: self.yz,
                xx: self.xxy,
                xy: 2 * self.xyy,
                xz: self.xyz,
                yy: 3 * self.yyy,
                yz: 2 * self.yyz,
                zz: self.yzz,
                xxx: 0,
                xxy: 0,
                xxz: 0,
                xyy: 0,
                xyz: 0,
                xzz: 0,
                yyy: 0,
                yyz: 0,
                yzz: 0,
                zzz: 0,
            }
        } else {
            Cubic {
                one: self.z,
                x: self.xz,
                y: self.yz,
                z: 2 * self.zz,
                xx: self.xxz,
                xy: self.xyz,
                xz: 2 * self.xzz,
                yy: self.yyz,
                yz: 2 * self.yzz,
                zz: 3 * self.zzz,
                xxx: 0,
                xxy: 0,
                xxz: 0,
                xyy: 0,
                xyz: 0,
                xzz: 0,
                yyy: 0,
                yyz: 0,
                yzz: 0,
                zzz: 0,
            }
        }
    }
}

// ── values of sums and products ─────────────────────────────────────────────

/// The value of a number.
pub proof fn lemma_number<R: Real>(x: R, y: R, z: R, k: int)
    requires
        exact_ring::<R>(),
        exact_integers::<R>(),
    ensures
        Cubic::number(k).at(x, y, z) == R::int_val(k),
{
    let f = Cubic::number(k).terms(x, y, z);
    lemma_int_units::<R>();
    assert forall|i: int| 0 <= i < 20 && i != 0 implies #[trigger] f(i) == R::zero_val() by {
        lemma_times_zero(monomial(x, y, z, i));
    }
    lemma_sum_single(20, 0, f);
    lemma_times_one(R::int_val(k));
}

/// The value of a sum.
pub proof fn lemma_sum_value<R: Real>(x: R, y: R, z: R, p: Cubic, q: Cubic)
    requires
        exact_ring::<R>(),
        exact_integers::<R>(),
    ensures
        p.plus(q).at(x, y, z) == p.at(x, y, z).plus(q.at(x, y, z)),
{
    let (f, g, h) = (p.terms(x, y, z), q.terms(x, y, z), p.plus(q).terms(x, y, z));
    assert forall|i: int| 0 <= i < 20 implies #[trigger] h(i) == f(i).plus(g(i)) by {
        let (a, b) = (p.coefficient(i), q.coefficient(i));
        lemma_int_plus::<R>(a, b);
        lemma_distribute(monomial(x, y, z, i), R::int_val(a), R::int_val(b));
    }
    lemma_sum_plus(20, f, g, h);
}

/// The value of a difference and of an opposite.
pub proof fn lemma_difference_value<R: Real>(x: R, y: R, z: R, p: Cubic, q: Cubic)
    requires
        exact_ring::<R>(),
        exact_integers::<R>(),
    ensures
        q.negated().at(x, y, z) == q.at(x, y, z).negated(),
        p.minus(q).at(x, y, z) == p.at(x, y, z).minus(q.at(x, y, z)),
{
    let m = R::one_val().negated();
    let (g, h) = (q.terms(x, y, z), q.negated().terms(x, y, z));
    let (s, one) = (q.at(x, y, z), R::one_val());
    assert forall|i: int| 0 <= i < 20 implies #[trigger] h(i) == m.times(g(i)) by {
        let c = R::int_val(q.coefficient(i));
        lemma_int_negated::<R>(q.coefficient(i));
        lemma_times_negated(c, monomial(x, y, z, i));
        lemma_times_negated(one, g(i));
        lemma_times_one(g(i));
    }
    lemma_sum_scale(20, m, g, h);
    lemma_times_negated(one, s);
    lemma_times_one(s);
    lemma_sum_value(x, y, z, p, q.negated());
    lemma_minus(p.at(x, y, z), s);
}

/// A monomial times a coordinate.
proof fn lemma_raised<R: Real>(x: R, y: R, z: R, t: int, i: int)
    requires
        exact_ring::<R>(),
        0 <= i < 10,
    ensures
        monomial(x, y, z, i).times(coordinate(x, y, z, t)) == monomial(x, y, z, raised(t, i)),
{
    let v = coordinate(x, y, z, t);
    lemma_times_one(v);
    lemma_times_comm(x, v);
    lemma_times_comm(y, v);
    lemma_times_comm(z, v);
    if i >= 4 {
        let a = if i < 7 {
            x
        } else if i < 9 {
            y
        } else {
            z
        };
        let b = if i == 4 {
            x
        } else if i == 5 || i == 7 {
            y
        } else {
            z
        };
        lemma_times_swap(a, b, v);
    }
}

/// The value of a product with a coordinate.
pub proof fn lemma_by_axis<R: Real>(x: R, y: R, z: R, t: int, p: Cubic)
    requires
        exact_ring::<R>(),
        exact_integers::<R>(),
        p.quadratic(),
    ensures
        p.by_axis(t).at(x, y, z) == coordinate(x, y, z, t).times(p.at(x, y, z)),
{
    let v = coordinate(x, y, z, t);
    let (f, g) = (p.terms(x, y, z), p.by_axis(t).terms(x, y, z));
    let h = |i: int| v.times(f(i));
    let zero = R::zero_val();
    lemma_int_units::<R>();
    assert forall|i: int| 0 <= i < 10 implies #[trigger] h(i) == g(raised(t, i)) by {
        let (c, m) = (R::int_val(p.coefficient(i)), monomial(x, y, z, i));
        lemma_times_comm(v, c.times(m));
        lemma_times_assoc(c, m, v);
        lemma_raised(x, y, z, t, i);
    }
    assert forall|i: int| 10 <= i < 20 implies #[trigger] h(i) == zero by {
        lemma_times_zero(monomial(x, y, z, i));
        lemma_times_zero(v);
    }
    lemma_sum_trailing(10, 20, h);
    lemma_sum_scale(20, v, f, h);
    assert forall|j: int| 0 <= j < 20 && p.by_axis(t).coefficient(j) == 0 implies #[trigger] g(j)
        == zero by {
        lemma_times_zero(monomial(x, y, z, j));
    }
    assert forall|j: int| #[trigger] sum(j, g).plus(zero) == sum(j, g) by {
        lemma_plus_zero(sum(j, g));
    }
    if t == 0 {
        assert(sum(0, g) == sum(0, h));
        assert(sum(1, g) == sum(0, h));
        assert(h(0) == g(1));
        assert(sum(2, g) == sum(1, h));
        assert(sum(3, g) == sum(1, h));
        assert(sum(4, g) == sum(1, h));
        assert(h(1) == g(4));
        assert(sum(5, g) == sum(2, h));
        assert(h(2) == g(5));
        assert(sum(6, g) == sum(3, h));
        assert(h(3) == g(6));
        assert(sum(7, g) == sum(4, h));
        assert(sum(8, g) == sum(4, h));
        assert(sum(9, g) == sum(4, h));
        assert(sum(10, g) == sum(4, h));
        assert(h(4) == g(10));
        assert(sum(11, g) == sum(5, h));
        assert(h(5) == g(11));
        assert(sum(12, g) == sum(6, h));
        assert(h(6) == g(12));
        assert(sum(13, g) == sum(7, h));
        assert(h(7) == g(13));
        assert(sum(14, g) == sum(8, h));
        assert(h(8) == g(14));
        assert(sum(15, g) == sum(9, h));
        assert(h(9) == g(15));
        assert(sum(16, g) == sum(10, h));
        assert(sum(17, g) == sum(10, h));
        assert(sum(18, g) == sum(10, h));
        assert(sum(19, g) == sum(10, h));
        assert(sum(20, g) == sum(10, h));
    } else if t == 1 {
        assert(sum(0, g) == sum(0, h));
        assert(sum(1, g) == sum(0, h));
        assert(sum(2, g) == sum(0, h));
        assert(h(0) == g(2));
        assert(sum(3, g) == sum(1, h));
        assert(sum(4, g) == sum(1, h));
        assert(sum(5, g) == sum(1, h));
        assert(h(1) == g(5));
        assert(sum(6, g) == sum(2, h));
        assert(sum(7, g) == sum(2, h));
        assert(h(2) == g(7));
        assert(sum(8, g) == sum(3, h));
        assert(h(3) == g(8));
        assert(sum(9, g) == sum(4, h));
        assert(sum(10, g) == sum(4, h));
        assert(sum(11, g) == sum(4, h));
        assert(h(4) == g(11));
        assert(sum(12, g) == sum(5, h));
        assert(sum(13, g) == sum(5, h));
        assert(h(5) == g(13));
        assert(sum(14, g) == sum(6, h));
        assert(h(6) == g(14));
        assert(sum(15, g) == sum(7, h));
        assert(sum(16, g) == sum(7, h));
        assert(h(7) == g(16));
        assert(sum(17, g) == sum(8, h));
        assert(h(8) == g(17));
        assert(sum(18, g) == sum(9, h));
        assert(h(9) == g(18));
        assert(sum(19, g) == sum(10, h));
        assert(sum(20, g) == sum(10, h));
    } else {
        assert(sum(0, g) == sum(0, h));
        assert(sum(1, g) == sum(0, h));
        assert(sum(2, g) == sum(0, h));
        assert(sum(3, g) == sum(0, h));
        assert(h(0) == g(3));
        assert(sum(4, g) == sum(1, h));
        assert(sum(5, g) == sum(1, h));
        assert(sum(6, g) == sum(1, h));
        assert(h(1) == g(6));
        assert(sum(7, g) == sum(2, h));
        assert(sum(8, g) == sum(2, h));
        assert(h(2) == g(8));
        assert(sum(9, g) == sum(3, h));
        assert(h(3) == g(9));
        assert(sum(10, g) == sum(4, h));
        assert(sum(11, g) == sum(4, h));
        assert(sum(12, g) == sum(4, h));
        assert(h(4) == g(12));
        assert(sum(13, g) == sum(5, h));
        assert(sum(14, g) == sum(5, h));
        assert(h(5) == g(14));
        assert(sum(15, g) == sum(6, h));
        assert(h(6) == g(15));
        assert(sum(16, g) == sum(7, h));
        assert(sum(17, g) == sum(7, h));
        assert(h(7) == g(17));
        assert(sum(18, g) == sum(8, h));
        assert(h(8) == g(18));
        assert(sum(19, g) == sum(9, h));
        assert(h(9) == g(19));
        assert(sum(20, g) == sum(10, h));
    }
}

} // verus!
