//! Shape functions and quadrature rules on segments, triangles and tetrahedra.

use vstd::prelude::*;

use crate::cpu::quadrature::gauss_quadrature;
#[allow(unused_imports)]
use crate::cpu::quadrature::{gauss_points, gauss_weights};
use crate::error::{ErrorKind, ReedError, ReedResult};
#[allow(unused_imports)]
use crate::error::refused;
use crate::scalar::{ratio, Real};
#[allow(unused_imports)]
use crate::scalar::{ratio_val, sum};
use crate::text::Message;
#[allow(unused_imports)]
use crate::text::decimal;

verus! {

// ── shape functions ─────────────────────────────────────────────────────────

/// Linear shape functions on `[0, 1]`, with nodes 0 and 1.
pub open spec fn line_p1_values<R: Real>(t: R) -> Seq<R> {
    seq![
        R::one_val().minus(t),
        t,
    ]
}

/// Slopes of [`line_p1_values`].
pub open spec fn line_p1_slopes<R: Real>(t: R) -> Seq<R> {
    seq![
        R::int_val(-1),
        R::one_val(),
    ]
}

/// Linear shape functions on `[0, 1]` and their slopes.
pub fn line_p1_basis<R: Real>(t: R) -> (r: (Vec<R>, Vec<R>))
    ensures
        r.0@ == line_p1_values(t),
        r.1@ == line_p1_slopes(t),
{
    let values = vec![
        R::one().sub(t),
        t,
    ];
    let slopes = vec![
        R::from_int(-1),
        R::one(),
    ];
    assert(values@ =~= line_p1_values(t));
    assert(slopes@ =~= line_p1_slopes(t));
    (values, slopes)
}

/// Quadratic shape functions on `[0, 1]`, with nodes 0, ½ and 1.
pub open spec fn line_p2_values<R: Real>(t: R) -> Seq<R> {
    seq![
        R::int_val(2).times(t.minus(ratio_val::<R>(1, 2))).times(t.minus(R::one_val())),
        R::int_val(-4).times(t).times(t.minus(R::one_val())),
        R::int_val(2).times(t).times(t.minus(ratio_val::<R>(1, 2))),
    ]
}

/// Slopes of [`line_p2_values`].
pub open spec fn line_p2_slopes<R: Real>(t: R) -> Seq<R> {
    seq![
        R::int_val(2).times(R::int_val(2).times(t).minus(ratio_val::<R>(3, 2))),
        R::int_val(-8).times(t).plus(R::int_val(4)),
        R::int_val(4).times(t).minus(R::one_val()),
    ]
}

/// Quadratic shape functions on `[0, 1]` and their slopes.
pub fn line_p2_basis<R: Real>(t: R) -> (r: (Vec<R>, Vec<R>))
    ensures
        r.0@ == line_p2_values(t),
        r.1@ == line_p2_slopes(t),
{
    let values = vec![
        R::from_int(2).mul(t.sub(ratio::<R>(1, 2))).mul(t.sub(R::one())),
        R::from_int(-4).mul(t).mul(t.sub(R::one())),
        R::from_int(2).mul(t).mul(t.sub(ratio::<R>(1, 2))),
    ];
    let slopes = vec![
        R::from_int(2).mul(R::from_int(2).mul(t).sub(ratio::<R>(3, 2))),
        R::from_int(-8).mul(t).add(R::from_int(4)),
        R::from_int(4).mul(t).sub(R::one()),
    ];
    assert(values@ =~= line_p2_values(t));
    assert(slopes@ =~= line_p2_slopes(t));
    (values, slopes)
}

/// Linear shape functions on the triangle with vertices (0,0), (1,0), (0,1).
pub open spec fn tri_p1_values<R: Real>(x: R, y: R) -> Seq<R> {
    seq![
        R::one_val().minus(x).minus(y),
        x,
        y,
    ]
}

/// Gradients of [`tri_p1_values`], two entries per function.
pub open spec fn tri_p1_slopes<R: Real>(x: R, y: R) -> Seq<R> {
    seq![
        R::int_val(-1),
        R::int_val(-1),
        R::one_val(),
        R::zero_val(),
        R::zero_val(),
        R::one_val(),
    ]
}

/// Linear shape functions on the triangle and their gradients.
pub fn tri_p1_basis<R: Real>(x: R, y: R) -> (r: (Vec<R>, Vec<R>))
    ensures
        r.0@ == tri_p1_values(x, y),
        r.1@ == tri_p1_slopes(x, y),
{
    let values = vec![
        R::one().sub(x).sub(y),
        x,
        y,
    ];
    let slopes = vec![
        R::from_int(-1),
        R::from_int(-1),
        R::one(),
        R::zero(),
        R::zero(),
        R::one(),
    ];
    assert(values@ =~= tri_p1_values(x, y));
    assert(slopes@ =~= tri_p1_slopes(x, y));
    (values, slopes)
}

/// Quadratic shape functions on the triangle: vertices, then the midpoints (½,0), (½,½), (0,½).
pub open spec fn tri_p2_values<R: Real>(x: R, y: R) -> Seq<R> {
    let l0 = R::one_val().minus(x).minus(y);
    seq![
        l0.times(R::int_val(2).times(l0).minus(R::one_val())),
        x.times(R::int_val(2).times(x).minus(R::one_val())),
        y.times(R::int_val(2).times(y).minus(R::one_val())),
        R::int_val(4).times(l0).times(x),
        R::int_val(4).times(x).times(y),
        R::int_val(4).times(l0).times(y),
    ]
}

/// Gradients of [`tri_p2_values`], two entries per function.
pub open spec fn tri_p2_slopes<R: Real>(x: R, y: R) -> Seq<R> {
    let l0 = R::one_val().minus(x).minus(y);
    seq![
        R::int_val(4).times(l0).minus(R::one_val()).negated(),
        R::int_val(4).times(l0).minus(R::one_val()).negated(),
        R::int_val(4).times(x).minus(R::one_val()),
        R::zero_val(),
        R::zero_val(),
        R::int_val(4).times(y).minus(R::one_val()),
        R::int_val(4).times(l0.minus(x)),
        R::int_val(-4).times(x),
        R::int_val(4).times(y),
        R::int_val(4).times(x),
        R::int_val(-4).times(y),
        R::int_val(4).times(l0.minus(y)),
    ]
}

/// Quadratic shape functions on the triangle and their gradients.
pub fn tri_p2_basis<R: Real>(x: R, y: R) -> (r: (Vec<R>, Vec<R>))
    ensures
        r.0@ == tri_p2_values(x, y),
        r.1@ == tri_p2_slopes(x, y),
{
    let l0 = R::one().sub(x).sub(y);
    let values = vec![
        l0.mul(R::from_int(2).mul(l0).sub(R::one())),
        x.mul(R::from_int(2).mul(x).sub(R::one())),
        y.mul(R::from_int(2).mul(y).sub(R::one())),
        R::from_int(4).mul(l0).mul(x),
        R::from_int(4).mul(x).mul(y),
        R::from_int(4).mul(l0).mul(y),
    ];
    let slopes = vec![
        R::from_int(4).mul(l0).sub(R::one()).neg(),
        R::from_int(4).mul(l0).sub(R::one()).neg(),
        R::from_int(4).mul(x).sub(R::one()),
        R::zero(),
        R::zero(),
        R::from_int(4).mul(y).sub(R::one()),
        R::from_int(4).mul(l0.sub(x)),
        R::from_int(-4).mul(x),
        R::from_int(4).mul(y),
        R::from_int(4).mul(x),
        R::from_int(-4).mul(y),
        R::from_int(4).mul(l0.sub(y)),
    ];
    assert(values@ =~= tri_p2_values(x, y));
    assert(slopes@ =~= tri_p2_slopes(x, y));
    (values, slopes)
}

/// Linear shape functions on the tetrahedron with vertices (0,0,0), (1,0,0), (0,1,0), (0,0,1).
pub open spec fn tet_p1_values<R: Real>(x: R, y: R, z: R) -> Seq<R> {
    seq![
        R::one_val().minus(x).minus(y).minus(z),
        x,
        y,
        z,
    ]
}

/// Gradients of [`tet_p1_values`], three entries per function.
pub open spec fn tet_p1_slopes<R: Real>(x: R, y: R, z: R) -> Seq<R> {
    seq![
        R::int_val(-1),
        R::int_val(-1),
        R::int_val(-1),
        R::one_val(),
        R::zero_val(),
        R::zero_val(),
        R::zero_val(),
        R::one_val(),
        R::zero_val(),
        R::zero_val(),
        R::zero_val(),
        R::one_val(),
    ]
}

/// Linear shape functions on the tetrahedron and their gradients.
pub fn tet_p1_basis<R: Real>(x: R, y: R, z: R) -> (r: (Vec<R>, Vec<R>))
    ensures
        r.0@ == tet_p1_values(x, y, z),
        r.1@ == tet_p1_slopes(x, y, z),
{
    let values = vec![
        R::one().sub(x).sub(y).sub(z),
        x,
        y,
        z,
    ];
    let slopes = vec![
        R::from_int(-1),
        R::from_int(-1),
        R::from_int(-1),
        R::one(),
        R::zero(),
        R::zero(),
        R::zero(),
        R::one(),
        R::zero(),
        R::zero(),
        R::zero(),
        R::one(),
    ];
    assert(values@ =~= tet_p1_values(x, y, z));
    assert(slopes@ =~= tet_p1_slopes(x, y, z));
    (values, slopes)
}

/// Quadratic shape functions on the tetrahedron: vertices, then the midpoints of the edges 01, 12, 02, 03, 13, 23.
pub open spec fn tet_p2_values<R: Real>(x: R, y: R, z: R) -> Seq<R> {
    let l0 = R::one_val().minus(x).minus(y).minus(z);
    seq![
        l0.times(R::int_val(2).times(l0).minus(R::one_val())),
        x.times(R::int_val(2).times(x).minus(R::one_val())),
        y.times(R::int_val(2).times(y).minus(R::one_val())),
        z.times(R::int_val(2).times(z).minus(R::one_val())),
        R::int_val(4).times(l0).times(x),
        R::int_val(4).times(x).times(y),
        R::int_val(4).times(l0).times(y),
        R::int_val(4).times(l0).times(z),
        R::int_val(4).times(x).times(z),
        R::int_val(4).times(y).times(z),
    ]
}

/// Gradients of [`tet_p2_values`], three entries per function.
pub open spec fn tet_p2_slopes<R: Real>(x: R, y: R, z: R) -> Seq<R> {
    let l0 = R::one_val().minus(x).minus(y).minus(z);
    seq![
        R::int_val(4).times(l0).minus(R::one_val()).negated(),
        R::int_val(4).times(l0).minus(R::one_val()).negated(),
        R::int_val(4).times(l0).minus(R::one_val()).negated(),
        R::int_val(4).times(x).minus(R::one_val()),
        R::zero_val(),
        R::zero_val(),
        R::zero_val(),
        R::int_val(4).times(y).minus(R::one_val()),
        R::zero_val(),
        R::zero_val(),
        R::zero_val(),
        R::int_val(4).times(z).minus(R::one_val()),
        R::int_val(4).times(l0.minus(x)),
        R::int_val(-4).times(x),
        R::int_val(-4).times(x),
        R::int_val(4).times(y),
        R::int_val(4).times(x),
        R::zero_val(),
        R::int_val(-4).times(y),
        R::int_val(4).times(l0.minus(y)),
        R::int_val(-4).times(y),
        R::int_val(-4).times(z),
        R::int_val(-4).times(z),
        R::int_val(4).times(l0.minus(z)),
        R::int_val(4).times(z),
        R::zero_val(),
        R::int_val(4).times(x),
        R::zero_val(),
        R::int_val(4).times(z),
        R::int_val(4).times(y),
    ]
}

/// Quadratic shape functions on the tetrahedron and their gradients.
pub fn tet_p2_basis<R: Real>(x: R, y: R, z: R) -> (r: (Vec<R>, Vec<R>))
    ensures
        r.0@ == tet_p2_values(x, y, z),
        r.1@ == tet_p2_slopes(x, y, z),
{
    let l0 = R::one().sub(x).sub(y).sub(z);
    let values = vec![
        l0.mul(R::from_int(2).mul(l0).sub(R::one())),
        x.mul(R::from_int(2).mul(x).sub(R::one())),
        y.mul(R::from_int(2).mul(y).sub(R::one())),
        z.mul(R::from_int(2).mul(z).sub(R::one())),
        R::from_int(4).mul(l0).mul(x),
        R::from_int(4).mul(x).mul(y),
        R::from_int(4).mul(l0).mul(y),
        R::from_int(4).mul(l0).mul(z),
        R::from_int(4).mul(x).mul(z),
        R::from_int(4).mul(y).mul(z),
    ];
    let slopes = vec![
        R::from_int(4).mul(l0).sub(R::one()).neg(),
        R::from_int(4).mul(l0).sub(R::one()).neg(),
        R::from_int(4).mul(l0).sub(R::one()).neg(),
        R::from_int(4).mul(x).sub(R::one()),
        R::zero(),
        R::zero(),
        R::zero(),
        R::from_int(4).mul(y).sub(R::one()),
        R::zero(),
        R::zero(),
        R::zero(),
        R::from_int(4).mul(z).sub(R::one()),
        R::from_int(4).mul(l0.sub(x)),
        R::from_int(-4).mul(x),
        R::from_int(-4).mul(x),
        R::from_int(4).mul(y),
        R::from_int(4).mul(x),
        R::zero(),
        R::from_int(-4).mul(y),
        R::from_int(4).mul(l0.sub(y)),
        R::from_int(-4).mul(y),
        R::from_int(-4).mul(z),
        R::from_int(-4).mul(z),
        R::from_int(4).mul(l0.sub(z)),
        R::from_int(4).mul(z),
        R::zero(),
        R::from_int(4).mul(x),
        R::zero(),
        R::from_int(4).mul(z),
        R::from_int(4).mul(y),
    ];
    assert(values@ =~= tet_p2_values(x, y, z));
    assert(slopes@ =~= tet_p2_slopes(x, y, z));
    (values, slopes)
}

/// Monomials in the plane up to degree three.
pub open spec fn tri_monomials<R: Real>(x: R, y: R) -> Seq<R> {
    let x2 = x.times(x);
    let y2 = y.times(y);
    seq![
        R::one_val(),
        x,
        y,
        x2,
        x.times(y),
        y2,
        x2.times(x),
        x2.times(y),
        x.times(y2),
        y2.times(y),
    ]
}

fn tri_monomials_of<R: Real>(x: R, y: R) -> (r: Vec<R>)
    ensures
        r@ == tri_monomials(x, y),
{
    let x2 = x.mul(x);
    let y2 = y.mul(y);
    let r = vec![
        R::one(),
        x,
        y,
        x2,
        x.mul(y),
        y2,
        x2.mul(x),
        x2.mul(y),
        x.mul(y2),
        y2.mul(y),
    ];
    assert(r@ =~= tri_monomials(x, y));
    r
}

/// Derivatives of the plane monomials in `x`.
pub open spec fn tri_monomials_dx<R: Real>(x: R, y: R) -> Seq<R> {
    let x2 = x.times(x);
    let y2 = y.times(y);
    seq![
        R::zero_val(),
        R::one_val(),
        R::zero_val(),
        R::int_val(2).times(x),
        y,
        R::zero_val(),
        R::int_val(3).times(x2),
        R::int_val(2).times(x).times(y),
        y2,
        R::zero_val(),
    ]
}

fn tri_monomials_dx_of<R: Real>(x: R, y: R) -> (r: Vec<R>)
    ensures
        r@ == tri_monomials_dx(x, y),
{
    let x2 = x.mul(x);
    let y2 = y.mul(y);
    let r = vec![
        R::zero(),
        R::one(),
        R::zero(),
        R::from_int(2).mul(x),
        y,
        R::zero(),
        R::from_int(3).mul(x2),
        R::from_int(2).mul(x).mul(y),
        y2,
        R::zero(),
    ];
    assert(r@ =~= tri_monomials_dx(x, y));
    r
}

/// Derivatives of the plane monomials in `y`.
pub open spec fn tri_monomials_dy<R: Real>(x: R, y: R) -> Seq<R> {
    let x2 = x.times(x);
    let y2 = y.times(y);
    seq![
        R::zero_val(),
        R::zero_val(),
        R::one_val(),
        R::zero_val(),
        x,
        R::int_val(2).times(y),
        R::zero_val(),
        x2,
        R::int_val(2).times(x).times(y),
        R::int_val(3).times(y2),
    ]
}

fn tri_monomials_dy_of<R: Real>(x: R, y: R) -> (r: Vec<R>)
    ensures
        r@ == tri_monomials_dy(x, y),
{
    let x2 = x.mul(x);
    let y2 = y.mul(y);
    let r = vec![
        R::zero(),
        R::zero(),
        R::one(),
        R::zero(),
        x,
        R::from_int(2).mul(y),
        R::zero(),
        x2,
        R::from_int(2).mul(x).mul(y),
        R::from_int(3).mul(y2),
    ];
    assert(r@ =~= tri_monomials_dy(x, y));
    r
}

// ── cubic shape functions ───────────────────────────────────────────────────

/// Twice the coefficients of the cubic shape functions on the triangle, monomials by rows.
///
/// The nodes are the vertices, then (⅓,0), (⅔,0), (⅔,⅓), (⅓,⅔), (0,⅓), (0,⅔) and (⅓,⅓).
pub const TRI_P3: [[i64; 10]; 10] = [
    [2, 0, 0, 0, 0, 0, 0, 0, 0, 0],
    [-11, 2, 0, 18, -9, 0, 0, 0, 0, 0],
    [-11, 0, 2, 0, 0, 0, 0, 18, -9, 0],
    [18, -9, 0, -45, 36, 0, 0, 0, 0, 0],
    [36, 0, 0, -45, 9, -9, -9, -45, 9, 54],
    [18, 0, -9, 0, 0, 0, 0, -45, 36, 0],
    [-9, 9, 0, 27, -27, 0, 0, 0, 0, 0],
    [-27, 0, 0, 54, -27, 27, 0, 27, 0, -54],
    [-27, 0, 0, 27, 0, 0, 27, 54, -27, -54],
    [-9, 0, 9, 0, 0, 0, 0, 27, -27, 0],
];

/// Exponents of the monomials in space up to degree three.
pub const TET_P3_EXP: [[usize; 3]; 20] = [
    [0, 0, 0],
    [1, 0, 0],
    [0, 1, 0],
    [0, 0, 1],
    [2, 0, 0],
    [1, 1, 0],
    [1, 0, 1],
    [0, 2, 0],
    [0, 1, 1],
    [0, 0, 2],
    [3, 0, 0],
    [2, 1, 0],
    [2, 0, 1],
    [1, 2, 0],
    [1, 1, 1],
    [1, 0, 2],
    [0, 3, 0],
    [0, 2, 1],
    [0, 1, 2],
    [0, 0, 3],
];

/// Twice the coefficients of the cubic shape functions on the tetrahedron, monomials by rows.
///
/// Node `(i₀, i₁, i₂, i₃)/3` in barycentric coordinates; nodes are in lexicographic order.
pub const TET_P3: [[i64; 20]; 20] = [
    [0, 0, 0, 0, 0, 0, 0, 0, 0, 0, 0, 0, 0, 0, 0, 0, 0, 0, 0, 2],
    [0, 0, 0, 0, 0, 0, 0, 0, 0, 2, 0, 0, 0, 0, 0, -9, 0, 0, 18, -11],
    [0, 0, 0, 2, 0, 0, 0, 0, 0, 0, 0, 0, -9, 0, 0, 0, 0, 18, 0, -11],
    [2, 0, 0, 0, 0, 0, 0, 0, 0, 0, -9, 0, 0, 0, 0, 0, 18, 0, 0, -11],
    [0, 0, 0, 0, 0, 0, 0, 0, 0, -9, 0, 0, 0, 0, 0, 36, 0, 0, -45, 18],
    [0, 0, 0, 0, 0, 0, -9, 0, -9, 0, 0, 0, 9, 0, 54, 9, 0, -45, -45, 36],
    [0, 0, 0, 0, -9, 0, 0, -9, 0, 0, 9, 0, 0, 54, 0, 9, -45, 0, -45, 36],
    [0, 0, 0, -9, 0, 0, 0, 0, 0, 0, 0, 0, 36, 0, 0, 0, 0, -45, 0, 18],
    [0, -9, -9, 0, 0, 0, 0, 0, 0, 0, 9, 54, 9, 0, 0, 0, -45, -45, 0, 36],
    [-9, 0, 0, 0, 0, 0, 0, 0, 0, 0, 36, 0, 0, 0, 0, 0, -45, 0, 0, 18],
    [0, 0, 0, 0, 0, 0, 0, 0, 0, 9, 0, 0, 0, 0, 0, -27, 0, 0, 27, -9],
    [0, 0, 0, 0, 0, 0, 0, 0, 27, 0, 0, 0, 0, 0, -54, -27, 0, 27, 54, -27],
    [0, 0, 0, 0, 0, 0, 0, 27, 0, 0, 0, 0, 0, -54, 0, -27, 27, 0, 54, -27],
    [0, 0, 0, 0, 0, 0, 27, 0, 0, 0, 0, 0, -27, 0, -54, 0, 0, 54, 27, -27],
    [0, 0, 0, 0, 0, 54, 0, 0, 0, 0, 0, -54, 0, -54, -54, 0, 54, 54, 54, -54],
    [0, 0, 0, 0, 27, 0, 0, 0, 0, 0, -27, 0, 0, -54, 0, 0, 54, 0, 27, -27],
    [0, 0, 0, 9, 0, 0, 0, 0, 0, 0, 0, 0, -27, 0, 0, 0, 0, 27, 0, -9],
    [0, 0, 27, 0, 0, 0, 0, 0, 0, 0, 0, -54, -27, 0, 0, 0, 27, 54, 0, -27],
    [0, 27, 0, 0, 0, 0, 0, 0, 0, 0, -27, -54, 0, 0, 0, 0, 54, 27, 0, -27],
    [9, 0, 0, 0, 0, 0, 0, 0, 0, 0, -27, 0, 0, 0, 0, 0, 27, 0, 0, -9],
];

/// Products of shape function `k` with the values `m` of the monomials.
pub open spec fn tri_p3_terms<R: Real>(m: Seq<R>, k: int) -> spec_fn(int) -> R {
    |j: int| ratio_val::<R>(TRI_P3[j][k] as int, 2).times(m[j])
}

/// Cubic shape functions on the triangle.
pub open spec fn tri_p3_values<R: Real>(x: R, y: R) -> Seq<R> {
    Seq::new(10, |k: int| sum(10, tri_p3_terms(tri_monomials(x, y), k)))
}

/// Gradients of [`tri_p3_values`], two entries per function.
pub open spec fn tri_p3_slopes<R: Real>(x: R, y: R) -> Seq<R> {
    Seq::new(
        20,
        |k: int|
            if k % 2 == 0 {
                sum(10, tri_p3_terms(tri_monomials_dx(x, y), k / 2))
            } else {
                sum(10, tri_p3_terms(tri_monomials_dy(x, y), k / 2))
            },
    )
}

fn tri_p3_combine<R: Real>(m: &Vec<R>, k: usize) -> (s: R)
    requires
        m@.len() == 10,
        k < 10,
    ensures
        s == sum(10, tri_p3_terms(m@, k as int)),
{
    let mut s = R::zero();
    for j in 0..10usize
        invariant
            m@.len() == 10,
            k < 10,
            s == sum(j as int, tri_p3_terms(m@, k as int)),
    {
        s = s.add(ratio::<R>(TRI_P3[j][k], 2).mul(m[j]));
    }
    s
}

/// Cubic shape functions on the triangle and their gradients.
pub fn tri_p3_basis<R: Real>(x: R, y: R) -> (r: (Vec<R>, Vec<R>))
    ensures
        r.0@ == tri_p3_values(x, y),
        r.1@ == tri_p3_slopes(x, y),
{
    let m = tri_monomials_of(x, y);
    let dx = tri_monomials_dx_of(x, y);
    let dy = tri_monomials_dy_of(x, y);
    let mut values: Vec<R> = Vec::new();
    let mut slopes: Vec<R> = Vec::new();
    for k in 0..10usize
        invariant
            m@ == tri_monomials(x, y),
            dx@ == tri_monomials_dx(x, y),
            dy@ == tri_monomials_dy(x, y),
            values@.len() == k,
            slopes@.len() == 2 * k,
            forall|i: int| 0 <= i < k ==> #[trigger] values@[i] == tri_p3_values(x, y)[i],
            forall|i: int| 0 <= i < 2 * k ==> #[trigger] slopes@[i] == tri_p3_slopes(x, y)[i],
    {
        values.push(tri_p3_combine(&m, k));
        slopes.push(tri_p3_combine(&dx, k));
        slopes.push(tri_p3_combine(&dy, k));
    }
    assert(values@ =~= tri_p3_values(x, y));
    assert(slopes@ =~= tri_p3_slopes(x, y));
    (values, slopes)
}

/// `x` to the power `i`, for `i` up to three.
pub open spec fn small_power<R: Real>(x: R, i: int) -> R {
    if i <= 0 {
        R::one_val()
    } else if i == 1 {
        x
    } else if i == 2 {
        x.times(x)
    } else {
        x.times(x).times(x)
    }
}

fn small_power_of<R: Real>(x: R, i: usize) -> (r: R)
    requires
        i <= 3,
    ensures
        r == small_power(x, i as int),
{
    if i == 0 {
        R::one()
    } else if i == 1 {
        x
    } else if i == 2 {
        x.mul(x)
    } else {
        x.mul(x).mul(x)
    }
}

/// The monomial `xᵃ yᵇ zᶜ`, or its derivative in the direction `dir` where that is an axis.
pub open spec fn monomial<R: Real>(x: R, y: R, z: R, a: int, b: int, c: int, dir: int) -> R {
    let (px, py, pz) = (small_power(x, a), small_power(y, b), small_power(z, c));
    if dir == 0 {
        if a > 0 {
            R::int_val(a).times(small_power(x, a - 1)).times(py).times(pz)
        } else {
            R::zero_val()
        }
    } else if dir == 1 {
        if b > 0 {
            R::int_val(b).times(px).times(small_power(y, b - 1)).times(pz)
        } else {
            R::zero_val()
        }
    } else if dir == 2 {
        if c > 0 {
            R::int_val(c).times(px).times(py).times(small_power(z, c - 1))
        } else {
            R::zero_val()
        }
    } else {
        px.times(py).times(pz)
    }
}

fn monomial_of<R: Real>(x: R, y: R, z: R, a: usize, b: usize, c: usize, dir: usize) -> (r: R)
    requires
        a <= 3,
        b <= 3,
        c <= 3,
    ensures
        r == monomial(x, y, z, a as int, b as int, c as int, dir as int),
{
    let px = small_power_of(x, a);
    let py = small_power_of(y, b);
    let pz = small_power_of(z, c);
    if dir == 0 {
        if a > 0 {
            R::from_int(a as i64).mul(small_power_of(x, a - 1)).mul(py).mul(pz)
        } else {
            R::zero()
        }
    } else if dir == 1 {
        if b > 0 {
            R::from_int(b as i64).mul(px).mul(small_power_of(y, b - 1)).mul(pz)
        } else {
            R::zero()
        }
    } else if dir == 2 {
        if c > 0 {
            R::from_int(c as i64).mul(px).mul(py).mul(small_power_of(z, c - 1))
        } else {
            R::zero()
        }
    } else {
        px.mul(py).mul(pz)
    }
}

/// Monomials in space up to degree three, or their derivatives in one direction.
pub open spec fn tet_monomials<R: Real>(x: R, y: R, z: R, dir: int) -> Seq<R> {
    Seq::new(
        20,
        |j: int|
            monomial(
                x,
                y,
                z,
                TET_P3_EXP[j][0] as int,
                TET_P3_EXP[j][1] as int,
                TET_P3_EXP[j][2] as int,
                dir,
            ),
    )
}

/// Exponents are at most three.
proof fn lemma_exponents(j: int)
    requires
        0 <= j < 20,
    ensures
        TET_P3_EXP[j][0] <= 3,
        TET_P3_EXP[j][1] <= 3,
        TET_P3_EXP[j][2] <= 3,
{
}

fn tet_monomials_of<R: Real>(x: R, y: R, z: R, dir: usize) -> (r: Vec<R>)
    ensures
        r@ == tet_monomials(x, y, z, dir as int),
{
    let mut r: Vec<R> = Vec::new();
    for j in 0..20usize
        invariant
            r@.len() == j,
            forall|i: int| 0 <= i < j ==> #[trigger] r@[i] == tet_monomials(x, y, z, dir as int)[i],
    {
        proof {
            lemma_exponents(j as int);
        }
        let e: [usize; 3] = TET_P3_EXP[j];
        r.push(monomial_of(x, y, z, e[0], e[1], e[2], dir));
    }
    assert(r@ =~= tet_monomials(x, y, z, dir as int));
    r
}

/// Products of shape function `k` with the values `m` of the monomials.
pub open spec fn tet_p3_terms<R: Real>(m: Seq<R>, k: int) -> spec_fn(int) -> R {
    |j: int| ratio_val::<R>(TET_P3[j][k] as int, 2).times(m[j])
}

/// Cubic shape functions on the tetrahedron.
pub open spec fn tet_p3_values<R: Real>(x: R, y: R, z: R) -> Seq<R> {
    Seq::new(20, |k: int| sum(20, tet_p3_terms(tet_monomials(x, y, z, 3), k)))
}

/// Gradients of [`tet_p3_values`], three entries per function.
pub open spec fn tet_p3_slopes<R: Real>(x: R, y: R, z: R) -> Seq<R> {
    Seq::new(60, |k: int| sum(20, tet_p3_terms(tet_monomials(x, y, z, k % 3), k / 3)))
}

fn tet_p3_combine<R: Real>(m: &Vec<R>, k: usize) -> (s: R)
    requires
        m@.len() == 20,
        k < 20,
    ensures
        s == sum(20, tet_p3_terms(m@, k as int)),
{
    let mut s = R::zero();
    for j in 0..20usize
        invariant
            m@.len() == 20,
            k < 20,
            s == sum(j as int, tet_p3_terms(m@, k as int)),
    {
        s = s.add(ratio::<R>(TET_P3[j][k], 2).mul(m[j]));
    }
    s
}

/// Cubic shape functions on the tetrahedron and their gradients.
pub fn tet_p3_basis<R: Real>(x: R, y: R, z: R) -> (r: (Vec<R>, Vec<R>))
    ensures
        r.0@ == tet_p3_values(x, y, z),
        r.1@ == tet_p3_slopes(x, y, z),
{
    let m = tet_monomials_of(x, y, z, 3);
    let dx = tet_monomials_of(x, y, z, 0);
    let dy = tet_monomials_of(x, y, z, 1);
    let dz = tet_monomials_of(x, y, z, 2);
    let mut values: Vec<R> = Vec::new();
    let mut slopes: Vec<R> = Vec::new();
    for k in 0..20usize
        invariant
            m@ == tet_monomials(x, y, z, 3),
            dx@ == tet_monomials(x, y, z, 0),
            dy@ == tet_monomials(x, y, z, 1),
            dz@ == tet_monomials(x, y, z, 2),
            values@.len() == k,
            slopes@.len() == 3 * k,
            forall|i: int| 0 <= i < k ==> #[trigger] values@[i] == tet_p3_values(x, y, z)[i],
            forall|i: int| 0 <= i < 3 * k ==> #[trigger] slopes@[i] == tet_p3_slopes(x, y, z)[i],
    {
        values.push(tet_p3_combine(&m, k));
        slopes.push(tet_p3_combine(&dx, k));
        slopes.push(tet_p3_combine(&dy, k));
        slopes.push(tet_p3_combine(&dz, k));
    }
    assert(values@ =~= tet_p3_values(x, y, z));
    assert(slopes@ =~= tet_p3_slopes(x, y, z));
    (values, slopes)
}

/// The nodes 0, ⅓, ⅔, 1.
pub open spec fn line_p3_nodes<R: Real>() -> Seq<R> {
    seq![R::zero_val(), ratio_val::<R>(1, 3), ratio_val::<R>(2, 3), R::one_val()]
}

/// The product of `(t - x_j) / (x_i - x_j)` over the first `n` nodes other than `i`.
pub open spec fn line_product<R: Real>(nodes: Seq<R>, t: R, i: int, n: int) -> R
    decreases n,
{
    if n <= 0 {
        R::one_val()
    } else if n - 1 == i {
        line_product(nodes, t, i, n - 1)
    } else {
        line_product(nodes, t, i, n - 1).times(
            t.minus(nodes[n - 1]).over(nodes[i].minus(nodes[n - 1])),
        )
    }
}

/// The sum of `1 / (t - x_j)` over the first `n` nodes other than `i`.
pub open spec fn line_poles<R: Real>(nodes: Seq<R>, t: R, i: int, n: int) -> R
    decreases n,
{
    if n <= 0 {
        R::zero_val()
    } else if n - 1 == i {
        line_poles(nodes, t, i, n - 1)
    } else {
        line_poles(nodes, t, i, n - 1).plus(R::one_val().over(t.minus(nodes[n - 1])))
    }
}

/// Cubic shape functions on `[0, 1]`.
pub open spec fn line_p3_values<R: Real>(t: R) -> Seq<R> {
    Seq::new(4, |i: int| line_product(line_p3_nodes::<R>(), t, i, 4))
}

/// Slopes of [`line_p3_values`] away from the nodes, by logarithmic differentiation.
pub open spec fn line_p3_slopes<R: Real>(t: R) -> Seq<R> {
    Seq::new(
        4,
        |i: int|
            line_product(line_p3_nodes::<R>(), t, i, 4).times(
                line_poles(line_p3_nodes::<R>(), t, i, 4),
            ),
    )
}

/// Cubic shape functions on `[0, 1]` and their slopes.
pub fn line_p3_basis<R: Real>(t: R) -> (r: (Vec<R>, Vec<R>))
    ensures
        r.0@ == line_p3_values(t),
        r.1@ == line_p3_slopes(t),
{
    let nodes = vec![R::zero(), ratio::<R>(1, 3), ratio::<R>(2, 3), R::one()];
    assert(nodes@ =~= line_p3_nodes::<R>());
    let mut values: Vec<R> = Vec::new();
    let mut slopes: Vec<R> = Vec::new();
    for i in 0..4usize
        invariant
            nodes@ == line_p3_nodes::<R>(),
            values@.len() == i,
            slopes@.len() == i,
            forall|k: int| 0 <= k < i ==> #[trigger] values@[k] == line_p3_values(t)[k],
            forall|k: int| 0 <= k < i ==> #[trigger] slopes@[k] == line_p3_slopes(t)[k],
    {
        let mut l = R::one();
        let mut s = R::zero();
        for j in 0..4usize
            invariant
                i < 4,
                nodes@ == line_p3_nodes::<R>(),
                l == line_product(nodes@, t, i as int, j as int),
                s == line_poles(nodes@, t, i as int, j as int),
        {
            if i != j {
                l = l.mul(t.sub(nodes[j]).div(nodes[i].sub(nodes[j])));
                s = s.add(R::one().div(t.sub(nodes[j])));
            }
        }
        values.push(l);
        slopes.push(l.mul(s));
    }
    assert(values@ =~= line_p3_values(t));
    assert(slopes@ =~= line_p3_slopes(t));
    (values, slopes)
}

// ── quadrature rules ────────────────────────────────────────────────────────

/// Points of the one-point rule on the triangle, exact for degree one.
pub open spec fn tri_rule1_points<R: Real>() -> Seq<R> {
    seq![
        ratio_val::<R>(1, 3),
        ratio_val::<R>(1, 3),
    ]
}

/// Weights of the one-point rule on the triangle, exact for degree one.
pub open spec fn tri_rule1_weights<R: Real>() -> Seq<R> {
    seq![
        ratio_val::<R>(1, 2),
    ]
}

fn tri_rule1<R: Real>() -> (r: (Vec<R>, Vec<R>))
    ensures
        r.0@ == tri_rule1_points::<R>(),
        r.1@ == tri_rule1_weights::<R>(),
{
    let points = vec![
        ratio::<R>(1, 3),
        ratio::<R>(1, 3),
    ];
    let weights = vec![
        ratio::<R>(1, 2),
    ];
    assert(points@ =~= tri_rule1_points::<R>());
    assert(weights@ =~= tri_rule1_weights::<R>());
    (points, weights)
}

/// Points of the three-point rule on the triangle, exact for degree two.
pub open spec fn tri_rule3_points<R: Real>() -> Seq<R> {
    let a = ratio_val::<R>(1, 6);
    let b = ratio_val::<R>(2, 3);
    seq![
        a,
        a,
        b,
        a,
        a,
        b,
    ]
}

/// Weights of the three-point rule on the triangle, exact for degree two.
pub open spec fn tri_rule3_weights<R: Real>() -> Seq<R> {
    let a = ratio_val::<R>(1, 6);
    seq![
        a,
        a,
        a,
    ]
}

fn tri_rule3<R: Real>() -> (r: (Vec<R>, Vec<R>))
    ensures
        r.0@ == tri_rule3_points::<R>(),
        r.1@ == tri_rule3_weights::<R>(),
{
    let a = ratio::<R>(1, 6);
    let b = ratio::<R>(2, 3);
    let points = vec![
        a,
        a,
        b,
        a,
        a,
        b,
    ];
    let weights = vec![
        a,
        a,
        a,
    ];
    assert(points@ =~= tri_rule3_points::<R>());
    assert(weights@ =~= tri_rule3_weights::<R>());
    (points, weights)
}

/// Points of the four-point rule on the triangle, exact for degree three.
pub open spec fn tri_rule4_points<R: Real>() -> Seq<R> {
    seq![
        ratio_val::<R>(1, 3),
        ratio_val::<R>(1, 3),
        ratio_val::<R>(1, 5),
        ratio_val::<R>(1, 5),
        ratio_val::<R>(3, 5),
        ratio_val::<R>(1, 5),
        ratio_val::<R>(1, 5),
        ratio_val::<R>(3, 5),
    ]
}

/// Weights of the four-point rule on the triangle, exact for degree three.
pub open spec fn tri_rule4_weights<R: Real>() -> Seq<R> {
    seq![
        ratio_val::<R>(-27, 96),
        ratio_val::<R>(25, 96),
        ratio_val::<R>(25, 96),
        ratio_val::<R>(25, 96),
    ]
}

fn tri_rule4<R: Real>() -> (r: (Vec<R>, Vec<R>))
    ensures
        r.0@ == tri_rule4_points::<R>(),
        r.1@ == tri_rule4_weights::<R>(),
{
    let points = vec![
        ratio::<R>(1, 3),
        ratio::<R>(1, 3),
        ratio::<R>(1, 5),
        ratio::<R>(1, 5),
        ratio::<R>(3, 5),
        ratio::<R>(1, 5),
        ratio::<R>(1, 5),
        ratio::<R>(3, 5),
    ];
    let weights = vec![
        ratio::<R>(-27, 96),
        ratio::<R>(25, 96),
        ratio::<R>(25, 96),
        ratio::<R>(25, 96),
    ];
    assert(points@ =~= tri_rule4_points::<R>());
    assert(weights@ =~= tri_rule4_weights::<R>());
    (points, weights)
}

/// Points of the six-point rule on the triangle, exact for degree four.
pub open spec fn tri_rule6_points<R: Real>() -> Seq<R> {
    let a1 = ratio_val::<R>(89189698183193, 200000000000000);
    let b1 = ratio_val::<R>(10810301816807, 100000000000000);
    let a2 = ratio_val::<R>(91576213509771, 1000000000000000);
    let b2 = ratio_val::<R>(816847572980459, 1000000000000000);
    seq![
        a1,
        a1,
        b1,
        a1,
        a1,
        b1,
        a2,
        a2,
        b2,
        a2,
        a2,
        b2,
    ]
}

/// Weights of the six-point rule on the triangle, exact for degree four.
pub open spec fn tri_rule6_weights<R: Real>() -> Seq<R> {
    let w1 = ratio_val::<R>(22338158967801, 200000000000000);
    let w2 = ratio_val::<R>(54975871827661, 1000000000000000);
    seq![
        w1,
        w1,
        w1,
        w2,
        w2,
        w2,
    ]
}

fn tri_rule6<R: Real>() -> (r: (Vec<R>, Vec<R>))
    ensures
        r.0@ == tri_rule6_points::<R>(),
        r.1@ == tri_rule6_weights::<R>(),
{
    let a1 = ratio::<R>(89189698183193, 200000000000000);
    let b1 = ratio::<R>(10810301816807, 100000000000000);
    let w1 = ratio::<R>(22338158967801, 200000000000000);
    let a2 = ratio::<R>(91576213509771, 1000000000000000);
    let b2 = ratio::<R>(816847572980459, 1000000000000000);
    let w2 = ratio::<R>(54975871827661, 1000000000000000);
    let points = vec![
        a1,
        a1,
        b1,
        a1,
        a1,
        b1,
        a2,
        a2,
        b2,
        a2,
        a2,
        b2,
    ];
    let weights = vec![
        w1,
        w1,
        w1,
        w2,
        w2,
        w2,
    ];
    assert(points@ =~= tri_rule6_points::<R>());
    assert(weights@ =~= tri_rule6_weights::<R>());
    (points, weights)
}

/// Points of the seven-point rule on the triangle, exact for degree five.
pub open spec fn tri_rule7_points<R: Real>() -> Seq<R> {
    let s = R::int_val(15).root();
    let ai = R::int_val(6).minus(s).over(R::int_val(21));
    let bi = R::one_val().minus(R::int_val(2).times(ai));
    let ao = R::int_val(6).plus(s).over(R::int_val(21));
    let bo = R::one_val().minus(R::int_val(2).times(ao));
    seq![
        ratio_val::<R>(1, 3),
        ratio_val::<R>(1, 3),
        ao,
        ao,
        bo,
        ao,
        ao,
        bo,
        ai,
        ai,
        bi,
        ai,
        ai,
        bi,
    ]
}

/// Weights of the seven-point rule on the triangle, exact for degree five.
pub open spec fn tri_rule7_weights<R: Real>() -> Seq<R> {
    let s = R::int_val(15).root();
    let w1 = ratio_val::<R>(9, 80);
    let wi = R::int_val(155).minus(s).over(R::int_val(2400));
    let wo = R::int_val(155).plus(s).over(R::int_val(2400));
    seq![
        w1,
        wo,
        wo,
        wo,
        wi,
        wi,
        wi,
    ]
}

fn tri_rule7<R: Real>() -> (r: (Vec<R>, Vec<R>))
    ensures
        r.0@ == tri_rule7_points::<R>(),
        r.1@ == tri_rule7_weights::<R>(),
{
    let s = R::from_int(15).sqrt();
    let w1 = ratio::<R>(9, 80);
    let ai = R::from_int(6).sub(s).div(R::from_int(21));
    let bi = R::one().sub(R::from_int(2).mul(ai));
    let wi = R::from_int(155).sub(s).div(R::from_int(2400));
    let ao = R::from_int(6).add(s).div(R::from_int(21));
    let bo = R::one().sub(R::from_int(2).mul(ao));
    let wo = R::from_int(155).add(s).div(R::from_int(2400));
    let points = vec![
        ratio::<R>(1, 3),
        ratio::<R>(1, 3),
        ao,
        ao,
        bo,
        ao,
        ao,
        bo,
        ai,
        ai,
        bi,
        ai,
        ai,
        bi,
    ];
    let weights = vec![
        w1,
        wo,
        wo,
        wo,
        wi,
        wi,
        wi,
    ];
    assert(points@ =~= tri_rule7_points::<R>());
    assert(weights@ =~= tri_rule7_weights::<R>());
    (points, weights)
}

/// Points of the one-point rule on the tetrahedron, exact for degree one.
pub open spec fn tet_rule1_points<R: Real>() -> Seq<R> {
    seq![
        ratio_val::<R>(1, 4),
        ratio_val::<R>(1, 4),
        ratio_val::<R>(1, 4),
    ]
}

/// Weights of the one-point rule on the tetrahedron, exact for degree one.
pub open spec fn tet_rule1_weights<R: Real>() -> Seq<R> {
    seq![
        ratio_val::<R>(1, 6),
    ]
}

fn tet_rule1<R: Real>() -> (r: (Vec<R>, Vec<R>))
    ensures
        r.0@ == tet_rule1_points::<R>(),
        r.1@ == tet_rule1_weights::<R>(),
{
    let points = vec![
        ratio::<R>(1, 4),
        ratio::<R>(1, 4),
        ratio::<R>(1, 4),
    ];
    let weights = vec![
        ratio::<R>(1, 6),
    ];
    assert(points@ =~= tet_rule1_points::<R>());
    assert(weights@ =~= tet_rule1_weights::<R>());
    (points, weights)
}

/// Points of the four-point rule on the tetrahedron, exact for degree two.
pub open spec fn tet_rule4_points<R: Real>() -> Seq<R> {
    let s = R::int_val(5).root();
    let a = R::int_val(5).minus(s).over(R::int_val(20));
    let b = R::int_val(5).plus(R::int_val(3).times(s)).over(R::int_val(20));
    seq![
        a,
        a,
        a,
        b,
        a,
        a,
        a,
        b,
        a,
        a,
        a,
        b,
    ]
}

/// Weights of the four-point rule on the tetrahedron, exact for degree two.
pub open spec fn tet_rule4_weights<R: Real>() -> Seq<R> {
    let w = ratio_val::<R>(1, 24);
    seq![
        w,
        w,
        w,
        w,
    ]
}

fn tet_rule4<R: Real>() -> (r: (Vec<R>, Vec<R>))
    ensures
        r.0@ == tet_rule4_points::<R>(),
        r.1@ == tet_rule4_weights::<R>(),
{
    let s = R::from_int(5).sqrt();
    let a = R::from_int(5).sub(s).div(R::from_int(20));
    let b = R::from_int(5).add(R::from_int(3).mul(s)).div(R::from_int(20));
    let w = ratio::<R>(1, 24);
    let points = vec![
        a,
        a,
        a,
        b,
        a,
        a,
        a,
        b,
        a,
        a,
        a,
        b,
    ];
    let weights = vec![
        w,
        w,
        w,
        w,
    ];
    assert(points@ =~= tet_rule4_points::<R>());
    assert(weights@ =~= tet_rule4_weights::<R>());
    (points, weights)
}

/// Points of the five-point rule on the tetrahedron, exact for degree three.
pub open spec fn tet_rule5_points<R: Real>() -> Seq<R> {
    seq![
        ratio_val::<R>(1, 4),
        ratio_val::<R>(1, 4),
        ratio_val::<R>(1, 4),
        ratio_val::<R>(1, 6),
        ratio_val::<R>(1, 6),
        ratio_val::<R>(1, 6),
        ratio_val::<R>(1, 2),
        ratio_val::<R>(1, 6),
        ratio_val::<R>(1, 6),
        ratio_val::<R>(1, 6),
        ratio_val::<R>(1, 2),
        ratio_val::<R>(1, 6),
        ratio_val::<R>(1, 6),
        ratio_val::<R>(1, 6),
        ratio_val::<R>(1, 2),
    ]
}

/// Weights of the five-point rule on the tetrahedron, exact for degree three.
pub open spec fn tet_rule5_weights<R: Real>() -> Seq<R> {
    seq![
        ratio_val::<R>(-4, 30),
        ratio_val::<R>(9, 120),
        ratio_val::<R>(9, 120),
        ratio_val::<R>(9, 120),
        ratio_val::<R>(9, 120),
    ]
}

fn tet_rule5<R: Real>() -> (r: (Vec<R>, Vec<R>))
    ensures
        r.0@ == tet_rule5_points::<R>(),
        r.1@ == tet_rule5_weights::<R>(),
{
    let points = vec![
        ratio::<R>(1, 4),
        ratio::<R>(1, 4),
        ratio::<R>(1, 4),
        ratio::<R>(1, 6),
        ratio::<R>(1, 6),
        ratio::<R>(1, 6),
        ratio::<R>(1, 2),
        ratio::<R>(1, 6),
        ratio::<R>(1, 6),
        ratio::<R>(1, 6),
        ratio::<R>(1, 2),
        ratio::<R>(1, 6),
        ratio::<R>(1, 6),
        ratio::<R>(1, 6),
        ratio::<R>(1, 2),
    ];
    let weights = vec![
        ratio::<R>(-4, 30),
        ratio::<R>(9, 120),
        ratio::<R>(9, 120),
        ratio::<R>(9, 120),
        ratio::<R>(9, 120),
    ];
    assert(points@ =~= tet_rule5_points::<R>());
    assert(weights@ =~= tet_rule5_weights::<R>());
    (points, weights)
}
/// Gauss points moved to `[0, 1]`.
pub open spec fn line_rule_points<R: Real>(q: int) -> Seq<R> {
    Seq::new(q as nat, |i: int| ratio_val::<R>(1, 2).times(gauss_points::<R>(q)[i].plus(R::one_val())))
}

/// Gauss weights for `[0, 1]`.
pub open spec fn line_rule_weights<R: Real>(q: int) -> Seq<R> {
    Seq::new(q as nat, |i: int| ratio_val::<R>(1, 2).times(gauss_weights::<R>(q)[i]))
}

/// Gauss quadrature on `[0, 1]`.
pub fn line_quadrature<R: Real>(q: usize) -> (r: ReedResult<(Vec<R>, Vec<R>)>)
    requires
        q <= i64::MAX,
    ensures
        if q < 1 {
            refused(
                r,
                ErrorKind::Basis,
                "line quadrature: unsupported q="@ + decimal(q as nat) + " (need >= 1)"@,
            )
        } else {
            r matches Ok(t) && t.0@ == line_rule_points::<R>(q as int) && t.1@
                == line_rule_weights::<R>(q as int)
        },
{
    if q < 1 {
        return Err(
            ReedError::Basis(
                Message::new("line quadrature: unsupported q=").num(q).text(
                    " (need >= 1)",
                ).done(),
            ),
        );
    }
    let (xi, wi) = match gauss_quadrature::<R>(q) {
        Ok(t) => t,
        Err(e) => {
            return Err(e);
        },
    };
    let mut points: Vec<R> = Vec::new();
    let mut weights: Vec<R> = Vec::new();
    for i in 0..q
        invariant
            xi@ == gauss_points::<R>(q as int),
            wi@ == gauss_weights::<R>(q as int),
            points@.len() == i,
            weights@.len() == i,
            forall|k: int| 0 <= k < i ==> #[trigger] points@[k] == line_rule_points::<R>(q as int)[k],
            forall|k: int|
                0 <= k < i ==> #[trigger] weights@[k] == line_rule_weights::<R>(q as int)[k],
    {
        points.push(ratio::<R>(1, 2).mul(xi[i].add(R::one())));
        weights.push(ratio::<R>(1, 2).mul(wi[i]));
    }
    assert(points@ =~= line_rule_points::<R>(q as int));
    assert(weights@ =~= line_rule_weights::<R>(q as int));
    Ok((points, weights))
}

/// Numbers of points for which there is a rule on the triangle.
pub open spec fn tri_rule(q: int) -> bool {
    q == 1 || q == 3 || q == 4 || q == 6 || q == 7
}

/// Points of the rule with `q` points on the triangle.
pub open spec fn tri_rule_points<R: Real>(q: int) -> Seq<R> {
    if q == 1 {
        tri_rule1_points()
    } else if q == 3 {
        tri_rule3_points()
    } else if q == 4 {
        tri_rule4_points()
    } else if q == 6 {
        tri_rule6_points()
    } else {
        tri_rule7_points()
    }
}

/// Weights of the rule with `q` points on the triangle.
pub open spec fn tri_rule_weights<R: Real>(q: int) -> Seq<R> {
    if q == 1 {
        tri_rule1_weights()
    } else if q == 3 {
        tri_rule3_weights()
    } else if q == 4 {
        tri_rule4_weights()
    } else if q == 6 {
        tri_rule6_weights()
    } else {
        tri_rule7_weights()
    }
}

/// The message that refuses a number of points on the triangle.
pub open spec fn tri_rule_message(q: nat) -> Seq<char> {
    "triangle quadrature: unsupported q="@ + decimal(q) + " (valid: 1,3,4,6,7)"@
}

/// Quadrature on the triangle: coordinates, two per point, and weights, which sum to the area ½.
pub fn tri_quadrature<R: Real>(q: usize) -> (r: ReedResult<(Vec<R>, Vec<R>)>)
    ensures
        if tri_rule(q as int) {
            &&& r matches Ok(t) && t.0@ == tri_rule_points::<R>(q as int) && t.1@
                == tri_rule_weights::<R>(q as int) && t.0@.len() == 2 * q && t.1@.len() == q
        } else {
            refused(r, ErrorKind::Basis, tri_rule_message(q as nat))
        },
{
    if q == 1 {
        Ok(tri_rule1())
    } else if q == 3 {
        Ok(tri_rule3())
    } else if q == 4 {
        Ok(tri_rule4())
    } else if q == 6 {
        Ok(tri_rule6())
    } else if q == 7 {
        Ok(tri_rule7())
    } else {
        Err(
            ReedError::Basis(
                Message::new("triangle quadrature: unsupported q=").num(q).text(
                    " (valid: 1,3,4,6,7)",
                ).done(),
            ),
        )
    }
}

/// Numbers of points for which there is a rule on the tetrahedron.
pub open spec fn tet_rule(q: int) -> bool {
    q == 1 || q == 4 || q == 5
}

/// Points of the rule with `q` points on the tetrahedron.
pub open spec fn tet_rule_points<R: Real>(q: int) -> Seq<R> {
    if q == 1 {
        tet_rule1_points()
    } else if q == 4 {
        tet_rule4_points()
    } else {
        tet_rule5_points()
    }
}

/// Weights of the rule with `q` points on the tetrahedron.
pub open spec fn tet_rule_weights<R: Real>(q: int) -> Seq<R> {
    if q == 1 {
        tet_rule1_weights()
    } else if q == 4 {
        tet_rule4_weights()
    } else {
        tet_rule5_weights()
    }
}

/// The message that refuses a number of points on the tetrahedron.
pub open spec fn tet_rule_message(q: nat) -> Seq<char> {
    "tet quadrature: unsupported q="@ + decimal(q) + " (valid: 1,4,5)"@
}

/// Quadrature on the tetrahedron: coordinates, three per point, and weights, which sum to the
/// volume ⅙.
pub fn tet_quadrature<R: Real>(q: usize) -> (r: ReedResult<(Vec<R>, Vec<R>)>)
    ensures
        if tet_rule(q as int) {
            &&& r matches Ok(t) && t.0@ == tet_rule_points::<R>(q as int) && t.1@
                == tet_rule_weights::<R>(q as int) && t.0@.len() == 3 * q && t.1@.len() == q
        } else {
            refused(r, ErrorKind::Basis, tet_rule_message(q as nat))
        },
{
    if q == 1 {
        Ok(tet_rule1())
    } else if q == 4 {
        Ok(tet_rule4())
    } else if q == 5 {
        Ok(tet_rule5())
    } else {
        Err(
            ReedError::Basis(
                Message::new("tet quadrature: unsupported q=").num(q).text(
                    " (valid: 1,4,5)",
                ).done(),
            ),
        )
    }
}

} // verus!
