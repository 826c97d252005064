//! Vector shape functions on triangles and tetrahedra: edge (Nédélec) and face (Raviart–Thomas)
//! elements.
//!
//! All functions are built from the barycentric coordinates `λ_i` and their constant gradients.
//! The functions of a higher order extend those of the lower ones.

use vstd::prelude::*;

use crate::scalar::Real;

verus! {

// ── barycentric coordinates ─────────────────────────────────────────────────
/// Barycentric coordinate `λ_i` on the triangle with vertices (0,0), (1,0), (0,1).
pub open spec fn tri_lam<R: Real>(x: R, y: R, i: int) -> R {
    if i == 0 {
        R::one_val().minus(x).minus(y)
    } else if i == 1 {
        x
    } else {
        y
    }
}

fn tri_lam_of<R: Real>(x: R, y: R, i: usize) -> (r: R)
    ensures
        r == tri_lam::<R>(x, y, i as int),
{
    if i == 0 {
        R::one().sub(x).sub(y)
    } else if i == 1 {
        x
    } else {
        y
    }
}

/// Derivative of `λ_i` in direction `d` on the triangle.
pub open spec fn tri_dlam<R: Real>(i: int, d: int) -> R {
    if i == 0 {
        R::int_val(-1)
    } else if i == d + 1 {
        R::one_val()
    } else {
        R::zero_val()
    }
}

fn tri_dlam_of<R: Real>(i: usize, d: usize) -> (r: R)
    requires
        d < 3,
    ensures
        r == tri_dlam::<R>(i as int, d as int),
{
    if i == 0 {
        R::from_int(-1)
    } else if i == d + 1 {
        R::one()
    } else {
        R::zero()
    }
}

/// Barycentric coordinate `λ_i` on the tetrahedron with vertices (0,0,0), (1,0,0), (0,1,0),
/// (0,0,1).
pub open spec fn tet_lam<R: Real>(x: R, y: R, z: R, i: int) -> R {
    if i == 0 {
        R::one_val().minus(x).minus(y).minus(z)
    } else if i == 1 {
        x
    } else if i == 2 {
        y
    } else {
        z
    }
}

fn tet_lam_of<R: Real>(x: R, y: R, z: R, i: usize) -> (r: R)
    ensures
        r == tet_lam::<R>(x, y, z, i as int),
{
    if i == 0 {
        R::one().sub(x).sub(y).sub(z)
    } else if i == 1 {
        x
    } else if i == 2 {
        y
    } else {
        z
    }
}

/// Derivative of `λ_i` in direction `d` on the tetrahedron.
pub open spec fn tet_dlam<R: Real>(i: int, d: int) -> R {
    if i == 0 {
        R::int_val(-1)
    } else if i == d + 1 {
        R::one_val()
    } else {
        R::zero_val()
    }
}

fn tet_dlam_of<R: Real>(i: usize, d: usize) -> (r: R)
    requires
        d < 3,
    ensures
        r == tet_dlam::<R>(i as int, d as int),
{
    if i == 0 {
        R::from_int(-1)
    } else if i == d + 1 {
        R::one()
    } else {
        R::zero()
    }
}

/// Start vertex of an edge of the triangle; the edges are 01, 12, 20.
pub open spec fn tri_edge_start(e: int) -> int {
    e
}

/// End vertex of an edge of the triangle.
pub open spec fn tri_edge_end(e: int) -> int {
    if e == 2 {
        0
    } else {
        e + 1
    }
}

fn tri_edge_start_of(e: usize) -> (i: usize)
    ensures
        i == tri_edge_start(e as int),
{
    e
}

fn tri_edge_end_of(e: usize) -> (i: usize)
    requires
        e < 3,
    ensures
        i == tri_edge_end(e as int),
{
    if e == 2 {
        0
    } else {
        e + 1
    }
}

/// Start vertex of an edge of the tetrahedron; the edges are 01, 02, 03, 12, 13, 23.
pub open spec fn tet_edge_start(e: int) -> int {
    if e < 3 {
        0
    } else if e < 5 {
        1
    } else {
        2
    }
}

/// End vertex of an edge of the tetrahedron.
pub open spec fn tet_edge_end(e: int) -> int {
    if e < 3 {
        e + 1
    } else if e < 5 {
        e - 1
    } else {
        3
    }
}

fn tet_edge_start_of(e: usize) -> (i: usize)
    ensures
        i == tet_edge_start(e as int),
{
    if e < 3 {
        0
    } else if e < 5 {
        1
    } else {
        2
    }
}

fn tet_edge_end_of(e: usize) -> (i: usize)
    ensures
        i == tet_edge_end(e as int),
{
    if e < 3 {
        e + 1
    } else if e < 5 {
        e - 1
    } else {
        3
    }
}

/// The axis that follows `d` in cyclic order.
pub open spec fn next_axis(d: int) -> int {
    if d == 0 {
        1
    } else if d == 1 {
        2
    } else {
        0
    }
}

fn next_axis_of(d: usize) -> (i: usize)
    requires
        d < 3,
    ensures
        i == next_axis(d as int),
{
    if d == 0 {
        1
    } else if d == 1 {
        2
    } else {
        0
    }
}

/// The axis that precedes `d` in cyclic order.
pub open spec fn last_axis(d: int) -> int {
    if d == 0 {
        2
    } else if d == 1 {
        0
    } else {
        1
    }
}

fn last_axis_of(d: usize) -> (i: usize)
    requires
        d < 3,
    ensures
        i == last_axis(d as int),
{
    if d == 0 {
        2
    } else if d == 1 {
        0
    } else {
        1
    }
}

// ── edge elements on the triangle ───────────────────────────────────────────
/// Component `d` of the edge form `λ_i ∇λ_j − λ_j ∇λ_i`.
pub open spec fn tri_edge_form<R: Real>(x: R, y: R, i: int, j: int, d: int) -> R {
    tri_lam::<R>(x, y, i).times(tri_dlam::<R>(j, d)).minus(tri_lam::<R>(x, y, j).times(tri_dlam::<R>(i, d)))
}

fn tri_edge_form_of<R: Real>(x: R, y: R, i: usize, j: usize, d: usize) -> (r: R)
    requires
        d < 3,
    ensures
        r == tri_edge_form::<R>(x, y, i as int, j as int, d as int),
{
    tri_lam_of::<R>(x, y, i).mul(tri_dlam_of::<R>(j, d)).sub(tri_lam_of::<R>(x, y, j).mul(tri_dlam_of::<R>(i, d)))
}

/// Curl of the edge form, `2 ∇λ_i × ∇λ_j`.
pub open spec fn tri_edge_curl<R: Real>(i: int, j: int) -> R {
    R::int_val(2).times(
        tri_dlam::<R>(i, 0).times(tri_dlam::<R>(j, 1)).minus(tri_dlam::<R>(i, 1).times(tri_dlam::<R>(j, 0))),
    )
}

fn tri_edge_curl_of<R: Real>(i: usize, j: usize) -> (r: R)
    ensures
        r == tri_edge_curl::<R>(i as int, j as int),
{
    R::from_int(2).mul(
        tri_dlam_of::<R>(i, 0).mul(tri_dlam_of::<R>(j, 1)).sub(tri_dlam_of::<R>(i, 1).mul(tri_dlam_of::<R>(j, 0))),
    )
}

/// `∇(λ_i − λ_j)` times the edge form, crosswise.
pub open spec fn tri_edge_twist<R: Real>(x: R, y: R, i: int, j: int) -> R {
    tri_dlam::<R>(i, 0).minus(tri_dlam::<R>(j, 0)).times(tri_edge_form::<R>(x, y, i, j, 1)).minus(
        tri_dlam::<R>(i, 1).minus(tri_dlam::<R>(j, 1)).times(tri_edge_form::<R>(x, y, i, j, 0)),
    )
}

fn tri_edge_twist_of<R: Real>(x: R, y: R, i: usize, j: usize) -> (r: R)
    ensures
        r == tri_edge_twist::<R>(x, y, i as int, j as int),
{
    tri_dlam_of::<R>(i, 0).sub(tri_dlam_of::<R>(j, 0)).mul(tri_edge_form_of::<R>(x, y, i, j, 1)).sub(
        tri_dlam_of::<R>(i, 1).sub(tri_dlam_of::<R>(j, 1)).mul(tri_edge_form_of::<R>(x, y, i, j, 0)),
    )
}

/// `λ_i − λ_j`.
pub open spec fn tri_edge_diff<R: Real>(x: R, y: R, i: int, j: int) -> R {
    tri_lam::<R>(x, y, i).minus(tri_lam::<R>(x, y, j))
}

fn tri_edge_diff_of<R: Real>(x: R, y: R, i: usize, j: usize) -> (r: R)
    ensures
        r == tri_edge_diff::<R>(x, y, i as int, j as int),
{
    tri_lam_of::<R>(x, y, i).sub(tri_lam_of::<R>(x, y, j))
}

/// Component `d` of `∇(λ_a λ_b)`.
pub open spec fn tri_pair_slope<R: Real>(x: R, y: R, a: int, b: int, d: int) -> R {
    tri_lam::<R>(x, y, a).times(tri_dlam::<R>(b, d)).plus(tri_lam::<R>(x, y, b).times(tri_dlam::<R>(a, d)))
}

fn tri_pair_slope_of<R: Real>(x: R, y: R, a: usize, b: usize, d: usize) -> (r: R)
    requires
        d < 3,
    ensures
        r == tri_pair_slope::<R>(x, y, a as int, b as int, d as int),
{
    tri_lam_of::<R>(x, y, a).mul(tri_dlam_of::<R>(b, d)).add(tri_lam_of::<R>(x, y, b).mul(tri_dlam_of::<R>(a, d)))
}

/// The bubble `λ_0 λ_1 λ_2`.
pub open spec fn tri_bubble<R: Real>(x: R, y: R) -> R {
    tri_lam::<R>(x, y, 0).times(tri_lam::<R>(x, y, 1)).times(tri_lam::<R>(x, y, 2))
}

fn tri_bubble_of<R: Real>(x: R, y: R) -> (r: R)
    ensures
        r == tri_bubble::<R>(x, y),
{
    tri_lam_of::<R>(x, y, 0).mul(tri_lam_of::<R>(x, y, 1)).mul(tri_lam_of::<R>(x, y, 2))
}

/// Component `d` of the gradient of the bubble.
pub open spec fn tri_bubble_slope<R: Real>(x: R, y: R, d: int) -> R {
    tri_lam::<R>(x, y, 1).times(tri_lam::<R>(x, y, 2)).times(tri_dlam::<R>(0, d)).plus(
        tri_lam::<R>(x, y, 0).times(tri_lam::<R>(x, y, 2)).times(tri_dlam::<R>(1, d)),
    ).plus(tri_lam::<R>(x, y, 0).times(tri_lam::<R>(x, y, 1)).times(tri_dlam::<R>(2, d)))
}

fn tri_bubble_slope_of<R: Real>(x: R, y: R, d: usize) -> (r: R)
    requires
        d < 3,
    ensures
        r == tri_bubble_slope::<R>(x, y, d as int),
{
    tri_lam_of::<R>(x, y, 1).mul(tri_lam_of::<R>(x, y, 2)).mul(tri_dlam_of::<R>(0, d)).add(
        tri_lam_of::<R>(x, y, 0).mul(tri_lam_of::<R>(x, y, 2)).mul(tri_dlam_of::<R>(1, d)),
    ).add(tri_lam_of::<R>(x, y, 0).mul(tri_lam_of::<R>(x, y, 1)).mul(tri_dlam_of::<R>(2, d)))
}

/// Component `d` of the gradient of `λ_0² λ_1`.
pub open spec fn tri_first_slope<R: Real>(x: R, y: R, d: int) -> R {
    R::int_val(2).times(tri_lam::<R>(x, y, 0)).times(tri_lam::<R>(x, y, 1)).times(tri_dlam::<R>(0, d)).plus(
        tri_lam::<R>(x, y, 0).times(tri_lam::<R>(x, y, 0)).times(tri_dlam::<R>(1, d)),
    )
}

fn tri_first_slope_of<R: Real>(x: R, y: R, d: usize) -> (r: R)
    requires
        d < 3,
    ensures
        r == tri_first_slope::<R>(x, y, d as int),
{
    R::from_int(2).mul(tri_lam_of::<R>(x, y, 0)).mul(tri_lam_of::<R>(x, y, 1)).mul(tri_dlam_of::<R>(0, d)).add(
        tri_lam_of::<R>(x, y, 0).mul(tri_lam_of::<R>(x, y, 0)).mul(tri_dlam_of::<R>(1, d)),
    )
}

/// Component `d` of the gradient of `λ_0 λ_1²`.
pub open spec fn tri_second_slope<R: Real>(x: R, y: R, d: int) -> R {
    tri_lam::<R>(x, y, 1).times(tri_lam::<R>(x, y, 1)).times(tri_dlam::<R>(0, d)).plus(
        R::int_val(2).times(tri_lam::<R>(x, y, 0)).times(tri_lam::<R>(x, y, 1)).times(tri_dlam::<R>(1, d)),
    )
}

fn tri_second_slope_of<R: Real>(x: R, y: R, d: usize) -> (r: R)
    requires
        d < 3,
    ensures
        r == tri_second_slope::<R>(x, y, d as int),
{
    tri_lam_of::<R>(x, y, 1).mul(tri_lam_of::<R>(x, y, 1)).mul(tri_dlam_of::<R>(0, d)).add(
        R::from_int(2).mul(tri_lam_of::<R>(x, y, 0)).mul(tri_lam_of::<R>(x, y, 1)).mul(tri_dlam_of::<R>(1, d)),
    )
}

/// The plane cross product of `(gx, gy)` with `∇λ_c`.
pub open spec fn tri_cross<R: Real>(gx: R, gy: R, c: int) -> R {
    gx.times(tri_dlam::<R>(c, 1)).minus(gy.times(tri_dlam::<R>(c, 0)))
}

fn tri_cross_of<R: Real>(gx: R, gy: R, c: usize) -> (r: R)
    ensures
        r == tri_cross::<R>(gx, gy, c as int),
{
    gx.mul(tri_dlam_of::<R>(c, 1)).sub(gy.mul(tri_dlam_of::<R>(c, 0)))
}

/// Component `d` of edge element function `dof`: edge forms (0–2), those times `λ_i − λ_j` (3–5),
/// `λ_0 λ_1 ∇λ_2` (6), `λ_0 λ_2 ∇λ_1` (7), edge forms times `(λ_i − λ_j)²` (8–10), the bubble
/// times `∇λ_0` (11) and `∇λ_1` (12), `λ_0² λ_1 ∇λ_2` (13), `λ_0 λ_1² ∇λ_2` (14).
pub open spec fn tri_nedelec_value<R: Real>(x: R, y: R, dof: int, d: int) -> R {
    if dof < 3 {
        tri_edge_form::<R>(x, y, tri_edge_start(dof), tri_edge_end(dof), d)
    } else if dof < 6 {
        tri_edge_diff::<R>(x, y, tri_edge_start(dof - 3), tri_edge_end(dof - 3)).times(
            tri_edge_form::<R>(x, y, tri_edge_start(dof - 3), tri_edge_end(dof - 3), d),
        )
    } else if dof == 6 {
        tri_lam::<R>(x, y, 0).times(tri_lam::<R>(x, y, 1)).times(tri_dlam::<R>(2, d))
    } else if dof == 7 {
        tri_lam::<R>(x, y, 0).times(tri_lam::<R>(x, y, 2)).times(tri_dlam::<R>(1, d))
    } else if dof < 11 {
        tri_edge_diff::<R>(x, y, tri_edge_start(dof - 8), tri_edge_end(dof - 8)).times(
            tri_edge_diff::<R>(x, y, tri_edge_start(dof - 8), tri_edge_end(dof - 8)),
        ).times(tri_edge_form::<R>(x, y, tri_edge_start(dof - 8), tri_edge_end(dof - 8), d))
    } else if dof == 11 {
        tri_bubble::<R>(x, y).times(tri_dlam::<R>(0, d))
    } else if dof == 12 {
        tri_bubble::<R>(x, y).times(tri_dlam::<R>(1, d))
    } else if dof == 13 {
        tri_lam::<R>(x, y, 0).times(tri_lam::<R>(x, y, 0)).times(tri_lam::<R>(x, y, 1)).times(tri_dlam::<R>(2, d))
    } else {
        tri_lam::<R>(x, y, 0).times(tri_lam::<R>(x, y, 1)).times(tri_lam::<R>(x, y, 1)).times(tri_dlam::<R>(2, d))
    }
}

fn tri_nedelec_value_of<R: Real>(x: R, y: R, dof: usize, d: usize) -> (r: R)
    requires
        dof < 15,
        d < 2,
    ensures
        r == tri_nedelec_value::<R>(x, y, dof as int, d as int),
{
    if dof < 3 {
        tri_edge_form_of::<R>(x, y, tri_edge_start_of(dof), tri_edge_end_of(dof), d)
    } else if dof < 6 {
        tri_edge_diff_of::<R>(x, y, tri_edge_start_of(dof - 3), tri_edge_end_of(dof - 3)).mul(
            tri_edge_form_of::<R>(x, y, tri_edge_start_of(dof - 3), tri_edge_end_of(dof - 3), d),
        )
    } else if dof == 6 {
        tri_lam_of::<R>(x, y, 0).mul(tri_lam_of::<R>(x, y, 1)).mul(tri_dlam_of::<R>(2, d))
    } else if dof == 7 {
        tri_lam_of::<R>(x, y, 0).mul(tri_lam_of::<R>(x, y, 2)).mul(tri_dlam_of::<R>(1, d))
    } else if dof < 11 {
        tri_edge_diff_of::<R>(x, y, tri_edge_start_of(dof - 8), tri_edge_end_of(dof - 8)).mul(
            tri_edge_diff_of::<R>(x, y, tri_edge_start_of(dof - 8), tri_edge_end_of(dof - 8)),
        ).mul(tri_edge_form_of::<R>(x, y, tri_edge_start_of(dof - 8), tri_edge_end_of(dof - 8), d))
    } else if dof == 11 {
        tri_bubble_of::<R>(x, y).mul(tri_dlam_of::<R>(0, d))
    } else if dof == 12 {
        tri_bubble_of::<R>(x, y).mul(tri_dlam_of::<R>(1, d))
    } else if dof == 13 {
        tri_lam_of::<R>(x, y, 0).mul(tri_lam_of::<R>(x, y, 0)).mul(tri_lam_of::<R>(x, y, 1)).mul(tri_dlam_of::<R>(2, d))
    } else {
        tri_lam_of::<R>(x, y, 0).mul(tri_lam_of::<R>(x, y, 1)).mul(tri_lam_of::<R>(x, y, 1)).mul(tri_dlam_of::<R>(2, d))
    }
}

/// Curl of edge element function `dof`.
pub open spec fn tri_nedelec_curl<R: Real>(x: R, y: R, dof: int) -> R {
    if dof < 3 {
        tri_edge_curl::<R>(tri_edge_start(dof), tri_edge_end(dof))
    } else if dof < 6 {
        tri_edge_twist::<R>(x, y, tri_edge_start(dof - 3), tri_edge_end(dof - 3)).plus(
            tri_edge_diff::<R>(x, y, tri_edge_start(dof - 3), tri_edge_end(dof - 3)).times(
                tri_edge_curl::<R>(tri_edge_start(dof - 3), tri_edge_end(dof - 3)),
            ),
        )
    } else if dof == 6 {
        tri_cross::<R>(tri_pair_slope::<R>(x, y, 0, 1, 0), tri_pair_slope::<R>(x, y, 0, 1, 1), 2)
    } else if dof == 7 {
        tri_cross::<R>(tri_pair_slope::<R>(x, y, 0, 2, 0), tri_pair_slope::<R>(x, y, 0, 2, 1), 1)
    } else if dof < 11 {
        R::int_val(2).times(
            tri_edge_diff::<R>(x, y, tri_edge_start(dof - 8), tri_edge_end(dof - 8)),
        ).times(tri_edge_twist::<R>(x, y, tri_edge_start(dof - 8), tri_edge_end(dof - 8))).plus(
            tri_edge_diff::<R>(x, y, tri_edge_start(dof - 8), tri_edge_end(dof - 8)).times(
                tri_edge_diff::<R>(x, y, tri_edge_start(dof - 8), tri_edge_end(dof - 8)),
            ).times(tri_edge_curl::<R>(tri_edge_start(dof - 8), tri_edge_end(dof - 8))),
        )
    } else if dof == 11 {
        tri_cross::<R>(tri_bubble_slope::<R>(x, y, 0), tri_bubble_slope::<R>(x, y, 1), 0)
    } else if dof == 12 {
        tri_cross::<R>(tri_bubble_slope::<R>(x, y, 0), tri_bubble_slope::<R>(x, y, 1), 1)
    } else if dof == 13 {
        tri_cross::<R>(tri_first_slope::<R>(x, y, 0), tri_first_slope::<R>(x, y, 1), 2)
    } else {
        tri_cross::<R>(tri_second_slope::<R>(x, y, 0), tri_second_slope::<R>(x, y, 1), 2)
    }
}

fn tri_nedelec_curl_of<R: Real>(x: R, y: R, dof: usize) -> (r: R)
    requires
        dof < 15,
    ensures
        r == tri_nedelec_curl::<R>(x, y, dof as int),
{
    if dof < 3 {
        tri_edge_curl_of::<R>(tri_edge_start_of(dof), tri_edge_end_of(dof))
    } else if dof < 6 {
        tri_edge_twist_of::<R>(x, y, tri_edge_start_of(dof - 3), tri_edge_end_of(dof - 3)).add(
            tri_edge_diff_of::<R>(x, y, tri_edge_start_of(dof - 3), tri_edge_end_of(dof - 3)).mul(
                tri_edge_curl_of::<R>(tri_edge_start_of(dof - 3), tri_edge_end_of(dof - 3)),
            ),
        )
    } else if dof == 6 {
        tri_cross_of::<R>(tri_pair_slope_of::<R>(x, y, 0, 1, 0), tri_pair_slope_of::<R>(x, y, 0, 1, 1), 2)
    } else if dof == 7 {
        tri_cross_of::<R>(tri_pair_slope_of::<R>(x, y, 0, 2, 0), tri_pair_slope_of::<R>(x, y, 0, 2, 1), 1)
    } else if dof < 11 {
        R::from_int(2).mul(
            tri_edge_diff_of::<R>(x, y, tri_edge_start_of(dof - 8), tri_edge_end_of(dof - 8)),
        ).mul(tri_edge_twist_of::<R>(x, y, tri_edge_start_of(dof - 8), tri_edge_end_of(dof - 8))).add(
            tri_edge_diff_of::<R>(x, y, tri_edge_start_of(dof - 8), tri_edge_end_of(dof - 8)).mul(
                tri_edge_diff_of::<R>(x, y, tri_edge_start_of(dof - 8), tri_edge_end_of(dof - 8)),
            ).mul(tri_edge_curl_of::<R>(tri_edge_start_of(dof - 8), tri_edge_end_of(dof - 8))),
        )
    } else if dof == 11 {
        tri_cross_of::<R>(tri_bubble_slope_of::<R>(x, y, 0), tri_bubble_slope_of::<R>(x, y, 1), 0)
    } else if dof == 12 {
        tri_cross_of::<R>(tri_bubble_slope_of::<R>(x, y, 0), tri_bubble_slope_of::<R>(x, y, 1), 1)
    } else if dof == 13 {
        tri_cross_of::<R>(tri_first_slope_of::<R>(x, y, 0), tri_first_slope_of::<R>(x, y, 1), 2)
    } else {
        tri_cross_of::<R>(tri_second_slope_of::<R>(x, y, 0), tri_second_slope_of::<R>(x, y, 1), 2)
    }
}

// ── edge elements on the tetrahedron ────────────────────────────────────────

/// First factor `a` of face function `λ_a λ_b ∇λ_c` number `n`.
pub open spec fn face_first(n: int) -> int {
    if n == 0 || n == 1 {
        1
    } else {
        0
    }
}

fn face_first_of(n: usize) -> (i: usize)
    requires
        n < 8,
    ensures
        i == face_first(n as int),
{
    if n == 0 || n == 1 {
        1
    } else {
        0
    }
}

/// Second factor `b` of face function `λ_a λ_b ∇λ_c` number `n`.
pub open spec fn face_second(n: int) -> int {
    if n == 0 || n == 2 || n == 7 {
        2
    } else if n == 1 || n == 3 || n == 5 {
        3
    } else {
        1
    }
}

fn face_second_of(n: usize) -> (i: usize)
    requires
        n < 8,
    ensures
        i == face_second(n as int),
{
    if n == 0 || n == 2 || n == 7 {
        2
    } else if n == 1 || n == 3 || n == 5 {
        3
    } else {
        1
    }
}

/// Gradient index `c` of face function `λ_a λ_b ∇λ_c` number `n`.
pub open spec fn face_third(n: int) -> int {
    if n == 0 || n == 2 || n == 4 {
        3
    } else if n == 1 || n == 3 || n == 6 {
        2
    } else {
        1
    }
}

fn face_third_of(n: usize) -> (i: usize)
    requires
        n < 8,
    ensures
        i == face_third(n as int),
{
    if n == 0 || n == 2 || n == 4 {
        3
    } else if n == 1 || n == 3 || n == 6 {
        2
    } else {
        1
    }
}
/// Component `d` of the edge form `λ_i ∇λ_j − λ_j ∇λ_i`.
pub open spec fn tet_edge_form<R: Real>(x: R, y: R, z: R, i: int, j: int, d: int) -> R {
    tet_lam::<R>(x, y, z, i).times(tet_dlam::<R>(j, d)).minus(tet_lam::<R>(x, y, z, j).times(tet_dlam::<R>(i, d)))
}

fn tet_edge_form_of<R: Real>(x: R, y: R, z: R, i: usize, j: usize, d: usize) -> (r: R)
    requires
        d < 3,
    ensures
        r == tet_edge_form::<R>(x, y, z, i as int, j as int, d as int),
{
    tet_lam_of::<R>(x, y, z, i).mul(tet_dlam_of::<R>(j, d)).sub(tet_lam_of::<R>(x, y, z, j).mul(tet_dlam_of::<R>(i, d)))
}

/// Component `d` of the curl of the edge form, `2 ∇λ_i × ∇λ_j`.
pub open spec fn tet_edge_curl<R: Real>(i: int, j: int, d: int) -> R {
    R::int_val(2).times(
        tet_dlam::<R>(i, next_axis(d)).times(tet_dlam::<R>(j, last_axis(d))).minus(
            tet_dlam::<R>(i, last_axis(d)).times(tet_dlam::<R>(j, next_axis(d))),
        ),
    )
}

fn tet_edge_curl_of<R: Real>(i: usize, j: usize, d: usize) -> (r: R)
    requires
        d < 3,
    ensures
        r == tet_edge_curl::<R>(i as int, j as int, d as int),
{
    R::from_int(2).mul(
        tet_dlam_of::<R>(i, next_axis_of(d)).mul(tet_dlam_of::<R>(j, last_axis_of(d))).sub(
            tet_dlam_of::<R>(i, last_axis_of(d)).mul(tet_dlam_of::<R>(j, next_axis_of(d))),
        ),
    )
}

/// `λ_i − λ_j`.
pub open spec fn tet_edge_diff<R: Real>(x: R, y: R, z: R, i: int, j: int) -> R {
    tet_lam::<R>(x, y, z, i).minus(tet_lam::<R>(x, y, z, j))
}

fn tet_edge_diff_of<R: Real>(x: R, y: R, z: R, i: usize, j: usize) -> (r: R)
    ensures
        r == tet_edge_diff::<R>(x, y, z, i as int, j as int),
{
    tet_lam_of::<R>(x, y, z, i).sub(tet_lam_of::<R>(x, y, z, j))
}

/// Component `d` of `∇(λ_i − λ_j)` times the edge form, crosswise.
pub open spec fn tet_edge_twist<R: Real>(x: R, y: R, z: R, i: int, j: int, d: int) -> R {
    tet_dlam::<R>(i, next_axis(d)).minus(tet_dlam::<R>(j, next_axis(d))).times(
        tet_edge_form::<R>(x, y, z, i, j, last_axis(d)),
    ).minus(
        tet_dlam::<R>(i, last_axis(d)).minus(tet_dlam::<R>(j, last_axis(d))).times(
            tet_edge_form::<R>(x, y, z, i, j, next_axis(d)),
        ),
    )
}

fn tet_edge_twist_of<R: Real>(x: R, y: R, z: R, i: usize, j: usize, d: usize) -> (r: R)
    requires
        d < 3,
    ensures
        r == tet_edge_twist::<R>(x, y, z, i as int, j as int, d as int),
{
    tet_dlam_of::<R>(i, next_axis_of(d)).sub(tet_dlam_of::<R>(j, next_axis_of(d))).mul(
        tet_edge_form_of::<R>(x, y, z, i, j, last_axis_of(d)),
    ).sub(
        tet_dlam_of::<R>(i, last_axis_of(d)).sub(tet_dlam_of::<R>(j, last_axis_of(d))).mul(
            tet_edge_form_of::<R>(x, y, z, i, j, next_axis_of(d)),
        ),
    )
}

/// Component `d` of the curl of face function `n`: `λ_1 λ_2 ∇λ_3`, `λ_1 λ_3 ∇λ_2`, `λ_0 λ_2 ∇λ_3`,
/// `λ_0 λ_3 ∇λ_2`, `λ_0 λ_1 ∇λ_3`, `λ_0 λ_3 ∇λ_1`, `λ_0 λ_1 ∇λ_2`, `λ_0 λ_2 ∇λ_1`.
pub open spec fn tet_face_curl<R: Real>(x: R, y: R, z: R, n: int, d: int) -> R {
    if n == 0 {
        if d == 0 {
            tet_lam::<R>(x, y, z, 1)
        } else if d == 1 {
            tet_lam::<R>(x, y, z, 2).negated()
        } else {
            R::zero_val()
        }
    } else if n == 1 {
        if d == 0 {
            tet_lam::<R>(x, y, z, 1).negated()
        } else if d == 1 {
            R::zero_val()
        } else {
            tet_lam::<R>(x, y, z, 3)
        }
    } else if n == 2 {
        if d == 0 {
            tet_edge_diff::<R>(x, y, z, 0, 2)
        } else if d == 1 {
            tet_lam::<R>(x, y, z, 2)
        } else {
            R::zero_val()
        }
    } else if n == 3 {
        if d == 0 {
            tet_edge_diff::<R>(x, y, z, 3, 0)
        } else if d == 1 {
            R::zero_val()
        } else {
            tet_lam::<R>(x, y, z, 3).negated()
        }
    } else if n == 4 {
        if d == 0 {
            tet_lam::<R>(x, y, z, 1).negated()
        } else if d == 1 {
            tet_edge_diff::<R>(x, y, z, 1, 0)
        } else {
            R::zero_val()
        }
    } else if n == 5 {
        if d == 0 {
            R::zero_val()
        } else if d == 1 {
            tet_edge_diff::<R>(x, y, z, 0, 3)
        } else {
            tet_lam::<R>(x, y, z, 3)
        }
    } else if n == 6 {
        if d == 0 {
            tet_lam::<R>(x, y, z, 1)
        } else if d == 1 {
            R::zero_val()
        } else {
            tet_edge_diff::<R>(x, y, z, 0, 1)
        }
    } else {
        if d == 0 {
            R::zero_val()
        } else if d == 1 {
            tet_lam::<R>(x, y, z, 2).negated()
        } else {
            tet_edge_diff::<R>(x, y, z, 2, 0)
        }
    }
}

fn tet_face_curl_of<R: Real>(x: R, y: R, z: R, n: usize, d: usize) -> (r: R)
    requires
        n < 8,
        d < 3,
    ensures
        r == tet_face_curl::<R>(x, y, z, n as int, d as int),
{
    if n == 0 {
        if d == 0 {
            tet_lam_of::<R>(x, y, z, 1)
        } else if d == 1 {
            tet_lam_of::<R>(x, y, z, 2).neg()
        } else {
            R::zero()
        }
    } else if n == 1 {
        if d == 0 {
            tet_lam_of::<R>(x, y, z, 1).neg()
        } else if d == 1 {
            R::zero()
        } else {
            tet_lam_of::<R>(x, y, z, 3)
        }
    } else if n == 2 {
        if d == 0 {
            tet_edge_diff_of::<R>(x, y, z, 0, 2)
        } else if d == 1 {
            tet_lam_of::<R>(x, y, z, 2)
        } else {
            R::zero()
        }
    } else if n == 3 {
        if d == 0 {
            tet_edge_diff_of::<R>(x, y, z, 3, 0)
        } else if d == 1 {
            R::zero()
        } else {
            tet_lam_of::<R>(x, y, z, 3).neg()
        }
    } else if n == 4 {
        if d == 0 {
            tet_lam_of::<R>(x, y, z, 1).neg()
        } else if d == 1 {
            tet_edge_diff_of::<R>(x, y, z, 1, 0)
        } else {
            R::zero()
        }
    } else if n == 5 {
        if d == 0 {
            R::zero()
        } else if d == 1 {
            tet_edge_diff_of::<R>(x, y, z, 0, 3)
        } else {
            tet_lam_of::<R>(x, y, z, 3)
        }
    } else if n == 6 {
        if d == 0 {
            tet_lam_of::<R>(x, y, z, 1)
        } else if d == 1 {
            R::zero()
        } else {
            tet_edge_diff_of::<R>(x, y, z, 0, 1)
        }
    } else {
        if d == 0 {
            R::zero()
        } else if d == 1 {
            tet_lam_of::<R>(x, y, z, 2).neg()
        } else {
            tet_edge_diff_of::<R>(x, y, z, 2, 0)
        }
    }
}

/// Component `d` of edge element function `dof`: edge forms (0–5), those times `λ_i − λ_j` (6–11),
/// face functions `λ_a λ_b ∇λ_c` (12–19).
pub open spec fn tet_nedelec_value<R: Real>(x: R, y: R, z: R, dof: int, d: int) -> R {
    if dof < 6 {
        tet_edge_form::<R>(x, y, z, tet_edge_start(dof), tet_edge_end(dof), d)
    } else if dof < 12 {
        tet_edge_diff::<R>(x, y, z, tet_edge_start(dof - 6), tet_edge_end(dof - 6)).times(
            tet_edge_form::<R>(x, y, z, tet_edge_start(dof - 6), tet_edge_end(dof - 6), d),
        )
    } else {
        tet_lam::<R>(x, y, z, face_first(dof - 12)).times(
            tet_lam::<R>(x, y, z, face_second(dof - 12)),
        ).times(tet_dlam::<R>(face_third(dof - 12), d))
    }
}

fn tet_nedelec_value_of<R: Real>(x: R, y: R, z: R, dof: usize, d: usize) -> (r: R)
    requires
        dof < 20,
        d < 3,
    ensures
        r == tet_nedelec_value::<R>(x, y, z, dof as int, d as int),
{
    if dof < 6 {
        tet_edge_form_of::<R>(x, y, z, tet_edge_start_of(dof), tet_edge_end_of(dof), d)
    } else if dof < 12 {
        tet_edge_diff_of::<R>(x, y, z, tet_edge_start_of(dof - 6), tet_edge_end_of(dof - 6)).mul(
            tet_edge_form_of::<R>(x, y, z, tet_edge_start_of(dof - 6), tet_edge_end_of(dof - 6), d),
        )
    } else {
        tet_lam_of::<R>(x, y, z, face_first_of(dof - 12)).mul(
            tet_lam_of::<R>(x, y, z, face_second_of(dof - 12)),
        ).mul(tet_dlam_of::<R>(face_third_of(dof - 12), d))
    }
}

/// Component `d` of the curl of edge element function `dof`.
pub open spec fn tet_nedelec_curl<R: Real>(x: R, y: R, z: R, dof: int, d: int) -> R {
    if dof < 6 {
        tet_edge_curl::<R>(tet_edge_start(dof), tet_edge_end(dof), d)
    } else if dof < 12 {
        tet_edge_twist::<R>(x, y, z, tet_edge_start(dof - 6), tet_edge_end(dof - 6), d).plus(
            tet_edge_diff::<R>(x, y, z, tet_edge_start(dof - 6), tet_edge_end(dof - 6)).times(
                tet_edge_curl::<R>(tet_edge_start(dof - 6), tet_edge_end(dof - 6), d),
            ),
        )
    } else {
        tet_face_curl::<R>(x, y, z, dof - 12, d)
    }
}

fn tet_nedelec_curl_of<R: Real>(x: R, y: R, z: R, dof: usize, d: usize) -> (r: R)
    requires
        dof < 20,
        d < 3,
    ensures
        r == tet_nedelec_curl::<R>(x, y, z, dof as int, d as int),
{
    if dof < 6 {
        tet_edge_curl_of::<R>(tet_edge_start_of(dof), tet_edge_end_of(dof), d)
    } else if dof < 12 {
        tet_edge_twist_of::<R>(x, y, z, tet_edge_start_of(dof - 6), tet_edge_end_of(dof - 6), d).add(
            tet_edge_diff_of::<R>(x, y, z, tet_edge_start_of(dof - 6), tet_edge_end_of(dof - 6)).mul(
                tet_edge_curl_of::<R>(tet_edge_start_of(dof - 6), tet_edge_end_of(dof - 6), d),
            ),
        )
    } else {
        tet_face_curl_of::<R>(x, y, z, dof - 12, d)
    }
}

// ── face elements on the triangle ───────────────────────────────────────────
/// Component `d` of the position relative to vertex `k`.
pub open spec fn tri_psi<R: Real>(x: R, y: R, k: int, d: int) -> R {
    if d == 0 {
        x.minus(
            if k == 1 {
                R::one_val()
            } else {
                R::zero_val()
            },
        )
    } else {
        y.minus(
            if k == 2 {
                R::one_val()
            } else {
                R::zero_val()
            },
        )
    }
}

fn tri_psi_of<R: Real>(x: R, y: R, k: usize, d: usize) -> (r: R)
    requires
        d < 3,
    ensures
        r == tri_psi::<R>(x, y, k as int, d as int),
{
    if d == 0 {
        x.sub(
            if k == 1 {
                R::one()
            } else {
                R::zero()
            },
        )
    } else {
        y.sub(
            if k == 2 {
                R::one()
            } else {
                R::zero()
            },
        )
    }
}

/// Component `d` of face element function `dof`: positions relative to the vertices (0–2), those
/// times a difference of barycentric coordinates (3–5), edge functions turned by a right angle (6,
/// 7), positions times a squared difference (8–10), further edge functions turned by a right angle
/// (11–14).
pub open spec fn tri_rt_value<R: Real>(x: R, y: R, dof: int, d: int) -> R {
    if dof < 3 {
        tri_psi::<R>(x, y, dof, d)
    } else if dof == 3 {
        tri_edge_diff::<R>(x, y, 1, 2).times(tri_psi::<R>(x, y, 0, d))
    } else if dof == 4 {
        tri_edge_diff::<R>(x, y, 2, 0).times(tri_psi::<R>(x, y, 1, d))
    } else if dof == 5 {
        tri_edge_diff::<R>(x, y, 0, 1).times(tri_psi::<R>(x, y, 2, d))
    } else if dof == 6 {
        if d == 0 {
            tri_lam::<R>(x, y, 0).negated().times(x)
        } else {
            R::zero_val()
        }
    } else if dof == 7 {
        if d == 0 {
            R::zero_val()
        } else {
            tri_lam::<R>(x, y, 0).times(y)
        }
    } else if dof == 8 {
        tri_edge_diff::<R>(x, y, 1, 2).times(tri_edge_diff::<R>(x, y, 1, 2)).times(tri_psi::<R>(x, y, 0, d))
    } else if dof == 9 {
        tri_edge_diff::<R>(x, y, 0, 2).times(tri_edge_diff::<R>(x, y, 0, 2)).times(tri_psi::<R>(x, y, 1, d))
    } else if dof == 10 {
        tri_edge_diff::<R>(x, y, 0, 1).times(tri_edge_diff::<R>(x, y, 0, 1)).times(tri_psi::<R>(x, y, 2, d))
    } else if dof == 11 {
        if d == 0 {
            tri_bubble::<R>(x, y)
        } else {
            tri_bubble::<R>(x, y).negated()
        }
    } else if dof == 12 {
        if d == 0 {
            R::zero_val()
        } else {
            tri_bubble::<R>(x, y)
        }
    } else if dof == 13 {
        if d == 0 {
            tri_lam::<R>(x, y, 0).times(tri_lam::<R>(x, y, 0)).times(tri_lam::<R>(x, y, 1)).negated()
        } else {
            R::zero_val()
        }
    } else {
        if d == 0 {
            tri_lam::<R>(x, y, 0).times(tri_lam::<R>(x, y, 1)).times(tri_lam::<R>(x, y, 1)).negated()
        } else {
            R::zero_val()
        }
    }
}

fn tri_rt_value_of<R: Real>(x: R, y: R, dof: usize, d: usize) -> (r: R)
    requires
        dof < 15,
        d < 2,
    ensures
        r == tri_rt_value::<R>(x, y, dof as int, d as int),
{
    if dof < 3 {
        tri_psi_of::<R>(x, y, dof, d)
    } else if dof == 3 {
        tri_edge_diff_of::<R>(x, y, 1, 2).mul(tri_psi_of::<R>(x, y, 0, d))
    } else if dof == 4 {
        tri_edge_diff_of::<R>(x, y, 2, 0).mul(tri_psi_of::<R>(x, y, 1, d))
    } else if dof == 5 {
        tri_edge_diff_of::<R>(x, y, 0, 1).mul(tri_psi_of::<R>(x, y, 2, d))
    } else if dof == 6 {
        if d == 0 {
            tri_lam_of::<R>(x, y, 0).neg().mul(x)
        } else {
            R::zero()
        }
    } else if dof == 7 {
        if d == 0 {
            R::zero()
        } else {
            tri_lam_of::<R>(x, y, 0).mul(y)
        }
    } else if dof == 8 {
        tri_edge_diff_of::<R>(x, y, 1, 2).mul(tri_edge_diff_of::<R>(x, y, 1, 2)).mul(tri_psi_of::<R>(x, y, 0, d))
    } else if dof == 9 {
        tri_edge_diff_of::<R>(x, y, 0, 2).mul(tri_edge_diff_of::<R>(x, y, 0, 2)).mul(tri_psi_of::<R>(x, y, 1, d))
    } else if dof == 10 {
        tri_edge_diff_of::<R>(x, y, 0, 1).mul(tri_edge_diff_of::<R>(x, y, 0, 1)).mul(tri_psi_of::<R>(x, y, 2, d))
    } else if dof == 11 {
        if d == 0 {
            tri_bubble_of::<R>(x, y)
        } else {
            tri_bubble_of::<R>(x, y).neg()
        }
    } else if dof == 12 {
        if d == 0 {
            R::zero()
        } else {
            tri_bubble_of::<R>(x, y)
        }
    } else if dof == 13 {
        if d == 0 {
            tri_lam_of::<R>(x, y, 0).mul(tri_lam_of::<R>(x, y, 0)).mul(tri_lam_of::<R>(x, y, 1)).neg()
        } else {
            R::zero()
        }
    } else {
        if d == 0 {
            tri_lam_of::<R>(x, y, 0).mul(tri_lam_of::<R>(x, y, 1)).mul(tri_lam_of::<R>(x, y, 1)).neg()
        } else {
            R::zero()
        }
    }
}

/// Divergence of face element function `dof`.
pub open spec fn tri_rt_div<R: Real>(x: R, y: R, dof: int) -> R {
    if dof < 3 {
        R::int_val(2)
    } else if dof == 3 {
        R::int_val(3).times(x.minus(y))
    } else if dof == 4 {
        R::int_val(3).times(x.plus(R::int_val(2).times(y)).minus(R::one_val()))
    } else if dof == 5 {
        R::int_val(3).times(R::one_val().minus(R::int_val(2).times(x)).minus(y))
    } else if dof == 6 {
        R::int_val(2).times(x).plus(y).minus(R::one_val())
    } else if dof == 7 {
        R::one_val().minus(x).minus(R::int_val(2).times(y))
    } else if dof == 8 {
        R::int_val(4).times(tri_edge_diff::<R>(x, y, 1, 2).times(tri_edge_diff::<R>(x, y, 1, 2)))
    } else if dof == 9 {
        R::int_val(4).times(tri_edge_diff::<R>(x, y, 0, 2).times(tri_edge_diff::<R>(x, y, 0, 2)))
    } else if dof == 10 {
        R::int_val(4).times(tri_edge_diff::<R>(x, y, 0, 1).times(tri_edge_diff::<R>(x, y, 0, 1)))
    } else if dof == 11 {
        tri_lam::<R>(x, y, 0).times(tri_edge_diff::<R>(x, y, 2, 1))
    } else if dof == 12 {
        tri_lam::<R>(x, y, 0).times(tri_lam::<R>(x, y, 1)).minus(tri_lam::<R>(x, y, 1).times(tri_lam::<R>(x, y, 2)))
    } else if dof == 13 {
        R::int_val(2).times(tri_lam::<R>(x, y, 0)).times(tri_lam::<R>(x, y, 1)).minus(
            tri_lam::<R>(x, y, 0).times(tri_lam::<R>(x, y, 0)),
        )
    } else {
        tri_lam::<R>(x, y, 1).times(tri_lam::<R>(x, y, 1)).minus(
            R::int_val(2).times(tri_lam::<R>(x, y, 0)).times(tri_lam::<R>(x, y, 1)),
        )
    }
}

fn tri_rt_div_of<R: Real>(x: R, y: R, dof: usize) -> (r: R)
    requires
        dof < 15,
    ensures
        r == tri_rt_div::<R>(x, y, dof as int),
{
    if dof < 3 {
        R::from_int(2)
    } else if dof == 3 {
        R::from_int(3).mul(x.sub(y))
    } else if dof == 4 {
        R::from_int(3).mul(x.add(R::from_int(2).mul(y)).sub(R::one()))
    } else if dof == 5 {
        R::from_int(3).mul(R::one().sub(R::from_int(2).mul(x)).sub(y))
    } else if dof == 6 {
        R::from_int(2).mul(x).add(y).sub(R::one())
    } else if dof == 7 {
        R::one().sub(x).sub(R::from_int(2).mul(y))
    } else if dof == 8 {
        R::from_int(4).mul(tri_edge_diff_of::<R>(x, y, 1, 2).mul(tri_edge_diff_of::<R>(x, y, 1, 2)))
    } else if dof == 9 {
        R::from_int(4).mul(tri_edge_diff_of::<R>(x, y, 0, 2).mul(tri_edge_diff_of::<R>(x, y, 0, 2)))
    } else if dof == 10 {
        R::from_int(4).mul(tri_edge_diff_of::<R>(x, y, 0, 1).mul(tri_edge_diff_of::<R>(x, y, 0, 1)))
    } else if dof == 11 {
        tri_lam_of::<R>(x, y, 0).mul(tri_edge_diff_of::<R>(x, y, 2, 1))
    } else if dof == 12 {
        tri_lam_of::<R>(x, y, 0).mul(tri_lam_of::<R>(x, y, 1)).sub(tri_lam_of::<R>(x, y, 1).mul(tri_lam_of::<R>(x, y, 2)))
    } else if dof == 13 {
        R::from_int(2).mul(tri_lam_of::<R>(x, y, 0)).mul(tri_lam_of::<R>(x, y, 1)).sub(
            tri_lam_of::<R>(x, y, 0).mul(tri_lam_of::<R>(x, y, 0)),
        )
    } else {
        tri_lam_of::<R>(x, y, 1).mul(tri_lam_of::<R>(x, y, 1)).sub(
            R::from_int(2).mul(tri_lam_of::<R>(x, y, 0)).mul(tri_lam_of::<R>(x, y, 1)),
        )
    }
}

// ── face elements on the tetrahedron ────────────────────────────────────────

/// Barycentric coordinate in face moment function number `n`.
pub open spec fn moment_factor(n: int) -> int {
    if n == 0 || n == 5 || n == 7 {
        1
    } else if n == 1 || n == 3 {
        2
    } else {
        0
    }
}

fn moment_factor_of(n: usize) -> (i: usize)
    requires
        n < 8,
    ensures
        i == moment_factor(n as int),
{
    if n == 0 || n == 5 || n == 7 {
        1
    } else if n == 1 || n == 3 {
        2
    } else {
        0
    }
}

/// Vertex in face moment function number `n`.
pub open spec fn moment_vertex(n: int) -> int {
    if n == 0 || n == 1 {
        0
    } else if n == 2 || n == 3 {
        1
    } else if n == 4 || n == 5 {
        2
    } else {
        3
    }
}

fn moment_vertex_of(n: usize) -> (i: usize)
    requires
        n < 8,
    ensures
        i == moment_vertex(n as int),
{
    if n == 0 || n == 1 {
        0
    } else if n == 2 || n == 3 {
        1
    } else if n == 4 || n == 5 {
        2
    } else {
        3
    }
}
/// Component `d` of twice the position relative to vertex `k`.
pub open spec fn tet_psi<R: Real>(x: R, y: R, z: R, k: int, d: int) -> R {
    if d == 0 {
        R::int_val(2).times(
            x.minus(
                if k == 1 {
                    R::one_val()
                } else {
                    R::zero_val()
                },
            ),
        )
    } else if d == 1 {
        R::int_val(2).times(
            y.minus(
                if k == 2 {
                    R::one_val()
                } else {
                    R::zero_val()
                },
            ),
        )
    } else {
        R::int_val(2).times(
            z.minus(
                if k == 3 {
                    R::one_val()
                } else {
                    R::zero_val()
                },
            ),
        )
    }
}

fn tet_psi_of<R: Real>(x: R, y: R, z: R, k: usize, d: usize) -> (r: R)
    requires
        d < 3,
    ensures
        r == tet_psi::<R>(x, y, z, k as int, d as int),
{
    if d == 0 {
        R::from_int(2).mul(
            x.sub(
                if k == 1 {
                    R::one()
                } else {
                    R::zero()
                },
            ),
        )
    } else if d == 1 {
        R::from_int(2).mul(
            y.sub(
                if k == 2 {
                    R::one()
                } else {
                    R::zero()
                },
            ),
        )
    } else {
        R::from_int(2).mul(
            z.sub(
                if k == 3 {
                    R::one()
                } else {
                    R::zero()
                },
            ),
        )
    }
}

/// Component `d` of face element function `dof`: twice the positions relative to the vertices
/// (0–3), those times a barycentric coordinate (4–11), curls of the face functions of the edge
/// elements (12–19).
pub open spec fn tet_rt_value<R: Real>(x: R, y: R, z: R, dof: int, d: int) -> R {
    if dof < 4 {
        tet_psi::<R>(x, y, z, dof, d)
    } else if dof < 12 {
        tet_lam::<R>(x, y, z, moment_factor(dof - 4)).times(
            tet_psi::<R>(x, y, z, moment_vertex(dof - 4), d),
        )
    } else {
        tet_face_curl::<R>(x, y, z, dof - 12, d)
    }
}

fn tet_rt_value_of<R: Real>(x: R, y: R, z: R, dof: usize, d: usize) -> (r: R)
    requires
        dof < 20,
        d < 3,
    ensures
        r == tet_rt_value::<R>(x, y, z, dof as int, d as int),
{
    if dof < 4 {
        tet_psi_of::<R>(x, y, z, dof, d)
    } else if dof < 12 {
        tet_lam_of::<R>(x, y, z, moment_factor_of(dof - 4)).mul(
            tet_psi_of::<R>(x, y, z, moment_vertex_of(dof - 4), d),
        )
    } else {
        tet_face_curl_of::<R>(x, y, z, dof - 12, d)
    }
}

/// Divergence of face element function `dof`.
pub open spec fn tet_rt_div<R: Real>(x: R, y: R, z: R, dof: int) -> R {
    if dof < 4 {
        R::int_val(6)
    } else if dof < 12 {
        R::int_val(8).times(tet_lam::<R>(x, y, z, moment_factor(dof - 4)))
    } else {
        R::zero_val()
    }
}

fn tet_rt_div_of<R: Real>(x: R, y: R, z: R, dof: usize) -> (r: R)
    requires
        dof < 20,
    ensures
        r == tet_rt_div::<R>(x, y, z, dof as int),
{
    if dof < 4 {
        R::from_int(6)
    } else if dof < 12 {
        R::from_int(8).mul(tet_lam_of::<R>(x, y, z, moment_factor_of(dof - 4)))
    } else {
        R::zero()
    }
}
// ── tables at a point ───────────────────────────────────────────────────────

/// The first `n` edge element functions on the triangle, function by function.
pub open spec fn tri_nedelec_values<R: Real>(x: R, y: R, n: int) -> Seq<R> {
    Seq::new((n * 2) as nat, |k: int| tri_nedelec_value(x, y, k / 2, k % 2))
}

/// The curls of the first `n` edge element functions on the triangle.
pub open spec fn tri_nedelec_curls<R: Real>(x: R, y: R, n: int) -> Seq<R> {
    Seq::new(n as nat, |k: int| tri_nedelec_curl(x, y, k))
}

fn tri_nedelec<R: Real>(x: R, y: R, n: usize) -> (r: (Vec<R>, Vec<R>))
    requires
        n <= 15,
    ensures
        r.0@ == tri_nedelec_values(x, y, n as int),
        r.1@ == tri_nedelec_curls(x, y, n as int),
{
    let mut values: Vec<R> = Vec::new();
    for k in 0..n * 2
        invariant
            n <= 15,
            values@.len() == k,
            forall|i: int|
                0 <= i < k ==> #[trigger] values@[i] == tri_nedelec_values(x, y, n as int)[i],
    {
        values.push(tri_nedelec_value_of(x, y, k / 2, k % 2));
    }
    let mut slopes: Vec<R> = Vec::new();
    for k in 0..n
        invariant
            n <= 15,
            slopes@.len() == k,
            forall|i: int|
                0 <= i < k ==> #[trigger] slopes@[i] == tri_nedelec_curls(x, y, n as int)[i],
    {
        slopes.push(tri_nedelec_curl_of(x, y, k));
    }
    assert(values@ =~= tri_nedelec_values(x, y, n as int));
    assert(slopes@ =~= tri_nedelec_curls(x, y, n as int));
    (values, slopes)
}

/// Lowest-order edge elements on the triangle: values and curls at a point.
pub fn tri_nedelec_p1<R: Real>(x: R, y: R) -> (r: (Vec<R>, Vec<R>))
    ensures
        r.0@ == tri_nedelec_values(x, y, 3),
        r.1@ == tri_nedelec_curls(x, y, 3),
{
    tri_nedelec(x, y, 3)
}

/// Second-order edge elements on the triangle: values and curls at a point.
pub fn tri_nedelec_p2<R: Real>(x: R, y: R) -> (r: (Vec<R>, Vec<R>))
    ensures
        r.0@ == tri_nedelec_values(x, y, 8),
        r.1@ == tri_nedelec_curls(x, y, 8),
{
    tri_nedelec(x, y, 8)
}

/// Third-order edge elements on the triangle: values and curls at a point.
pub fn tri_nedelec_p3<R: Real>(x: R, y: R) -> (r: (Vec<R>, Vec<R>))
    ensures
        r.0@ == tri_nedelec_values(x, y, 15),
        r.1@ == tri_nedelec_curls(x, y, 15),
{
    tri_nedelec(x, y, 15)
}

/// The first `n` edge element functions on the tetrahedron, function by function.
pub open spec fn tet_nedelec_values<R: Real>(x: R, y: R, z: R, n: int) -> Seq<R> {
    Seq::new((n * 3) as nat, |k: int| tet_nedelec_value(x, y, z, k / 3, k % 3))
}

/// The curls of the first `n` edge element functions on the tetrahedron.
pub open spec fn tet_nedelec_curls<R: Real>(x: R, y: R, z: R, n: int) -> Seq<R> {
    Seq::new((n * 3) as nat, |k: int| tet_nedelec_curl(x, y, z, k / 3, k % 3))
}

fn tet_nedelec<R: Real>(x: R, y: R, z: R, n: usize) -> (r: (Vec<R>, Vec<R>))
    requires
        n <= 20,
    ensures
        r.0@ == tet_nedelec_values(x, y, z, n as int),
        r.1@ == tet_nedelec_curls(x, y, z, n as int),
{
    let mut values: Vec<R> = Vec::new();
    for k in 0..n * 3
        invariant
            n <= 20,
            values@.len() == k,
            forall|i: int|
                0 <= i < k ==> #[trigger] values@[i] == tet_nedelec_values(x, y, z, n as int)[i],
    {
        values.push(tet_nedelec_value_of(x, y, z, k / 3, k % 3));
    }
    let mut slopes: Vec<R> = Vec::new();
    for k in 0..n * 3
        invariant
            n <= 20,
            slopes@.len() == k,
            forall|i: int|
                0 <= i < k ==> #[trigger] slopes@[i] == tet_nedelec_curls(x, y, z, n as int)[i],
    {
        slopes.push(tet_nedelec_curl_of(x, y, z, k / 3, k % 3));
    }
    assert(values@ =~= tet_nedelec_values(x, y, z, n as int));
    assert(slopes@ =~= tet_nedelec_curls(x, y, z, n as int));
    (values, slopes)
}

/// Lowest-order edge elements on the tetrahedron: values and curls at a point.
pub fn tet_nedelec_p1<R: Real>(x: R, y: R, z: R) -> (r: (Vec<R>, Vec<R>))
    ensures
        r.0@ == tet_nedelec_values(x, y, z, 6),
        r.1@ == tet_nedelec_curls(x, y, z, 6),
{
    tet_nedelec(x, y, z, 6)
}

/// Second-order edge elements on the tetrahedron: values and curls at a point.
pub fn tet_nedelec_p2<R: Real>(x: R, y: R, z: R) -> (r: (Vec<R>, Vec<R>))
    ensures
        r.0@ == tet_nedelec_values(x, y, z, 20),
        r.1@ == tet_nedelec_curls(x, y, z, 20),
{
    tet_nedelec(x, y, z, 20)
}

/// The first `n` face element functions on the triangle, function by function.
pub open spec fn tri_rt_values<R: Real>(x: R, y: R, n: int) -> Seq<R> {
    Seq::new((n * 2) as nat, |k: int| tri_rt_value(x, y, k / 2, k % 2))
}

/// The divergences of the first `n` face element functions on the triangle.
pub open spec fn tri_rt_divergences<R: Real>(x: R, y: R, n: int) -> Seq<R> {
    Seq::new(n as nat, |k: int| tri_rt_div(x, y, k))
}

fn tri_rt<R: Real>(x: R, y: R, n: usize) -> (r: (Vec<R>, Vec<R>))
    requires
        n <= 15,
    ensures
        r.0@ == tri_rt_values(x, y, n as int),
        r.1@ == tri_rt_divergences(x, y, n as int),
{
    let mut values: Vec<R> = Vec::new();
    for k in 0..n * 2
        invariant
            n <= 15,
            values@.len() == k,
            forall|i: int|
                0 <= i < k ==> #[trigger] values@[i] == tri_rt_values(x, y, n as int)[i],
    {
        values.push(tri_rt_value_of(x, y, k / 2, k % 2));
    }
    let mut slopes: Vec<R> = Vec::new();
    for k in 0..n
        invariant
            n <= 15,
            slopes@.len() == k,
            forall|i: int|
                0 <= i < k ==> #[trigger] slopes@[i] == tri_rt_divergences(x, y, n as int)[i],
    {
        slopes.push(tri_rt_div_of(x, y, k));
    }
    assert(values@ =~= tri_rt_values(x, y, n as int));
    assert(slopes@ =~= tri_rt_divergences(x, y, n as int));
    (values, slopes)
}

/// Lowest-order face elements on the triangle: values and divergences at a point.
pub fn tri_rt0<R: Real>(x: R, y: R) -> (r: (Vec<R>, Vec<R>))
    ensures
        r.0@ == tri_rt_values(x, y, 3),
        r.1@ == tri_rt_divergences(x, y, 3),
{
    tri_rt(x, y, 3)
}

/// Second-order face elements on the triangle: values and divergences at a point.
pub fn tri_rt1<R: Real>(x: R, y: R) -> (r: (Vec<R>, Vec<R>))
    ensures
        r.0@ == tri_rt_values(x, y, 8),
        r.1@ == tri_rt_divergences(x, y, 8),
{
    tri_rt(x, y, 8)
}

/// Third-order face elements on the triangle: values and divergences at a point.
pub fn tri_rt2<R: Real>(x: R, y: R) -> (r: (Vec<R>, Vec<R>))
    ensures
        r.0@ == tri_rt_values(x, y, 15),
        r.1@ == tri_rt_divergences(x, y, 15),
{
    tri_rt(x, y, 15)
}

/// The first `n` face element functions on the tetrahedron, function by function.
pub open spec fn tet_rt_values<R: Real>(x: R, y: R, z: R, n: int) -> Seq<R> {
    Seq::new((n * 3) as nat, |k: int| tet_rt_value(x, y, z, k / 3, k % 3))
}

/// The divergences of the first `n` face element functions on the tetrahedron.
pub open spec fn tet_rt_divergences<R: Real>(x: R, y: R, z: R, n: int) -> Seq<R> {
    Seq::new(n as nat, |k: int| tet_rt_div(x, y, z, k))
}

fn tet_rt<R: Real>(x: R, y: R, z: R, n: usize) -> (r: (Vec<R>, Vec<R>))
    requires
        n <= 20,
    ensures
        r.0@ == tet_rt_values(x, y, z, n as int),
        r.1@ == tet_rt_divergences(x, y, z, n as int),
{
    let mut values: Vec<R> = Vec::new();
    for k in 0..n * 3
        invariant
            n <= 20,
            values@.len() == k,
            forall|i: int|
                0 <= i < k ==> #[trigger] values@[i] == tet_rt_values(x, y, z, n as int)[i],
    {
        values.push(tet_rt_value_of(x, y, z, k / 3, k % 3));
    }
    let mut slopes: Vec<R> = Vec::new();
    for k in 0..n
        invariant
            n <= 20,
            slopes@.len() == k,
            forall|i: int|
                0 <= i < k ==> #[trigger] slopes@[i] == tet_rt_divergences(x, y, z, n as int)[i],
    {
        slopes.push(tet_rt_div_of(x, y, z, k));
    }
    assert(values@ =~= tet_rt_values(x, y, z, n as int));
    assert(slopes@ =~= tet_rt_divergences(x, y, z, n as int));
    (values, slopes)
}

/// Lowest-order face elements on the tetrahedron: values and divergences at a point.
pub fn tet_rt0<R: Real>(x: R, y: R, z: R) -> (r: (Vec<R>, Vec<R>))
    ensures
        r.0@ == tet_rt_values(x, y, z, 4),
        r.1@ == tet_rt_divergences(x, y, z, 4),
{
    tet_rt(x, y, z, 4)
}

/// Second-order face elements on the tetrahedron: values and divergences at a point.
pub fn tet_rt1<R: Real>(x: R, y: R, z: R) -> (r: (Vec<R>, Vec<R>))
    ensures
        r.0@ == tet_rt_values(x, y, z, 20),
        r.1@ == tet_rt_divergences(x, y, z, 20),
{
    tet_rt(x, y, z, 20)
}

// ── laws ────────────────────────────────────────────────────────────────────

/// Edge elements are nested: the functions of a lower order, and their curls, come first among
/// those of a higher one.
pub proof fn law_nedelec_nested<R: Real>(x: R, y: R, z: R, m: int, n: int)
    requires
        0 <= m <= n,
    ensures
        tri_nedelec_values(x, y, m) == tri_nedelec_values(x, y, n).take(2 * m),
        tri_nedelec_curls(x, y, m) == tri_nedelec_curls(x, y, n).take(m),
        tet_nedelec_values(x, y, z, m) == tet_nedelec_values(x, y, z, n).take(3 * m),
        tet_nedelec_curls(x, y, z, m) == tet_nedelec_curls(x, y, z, n).take(3 * m),
{
}

/// Face elements are nested: the functions of a lower order, and their divergences, come first
/// among those of a higher one.
pub proof fn law_rt_nested<R: Real>(x: R, y: R, z: R, m: int, n: int)
    requires
        0 <= m <= n,
    ensures
        tri_rt_values(x, y, m) == tri_rt_values(x, y, n).take(2 * m),
        tri_rt_divergences(x, y, m) == tri_rt_divergences(x, y, n).take(m),
        tet_rt_values(x, y, z, m) == tet_rt_values(x, y, z, n).take(3 * m),
        tet_rt_divergences(x, y, z, m) == tet_rt_divergences(x, y, z, n).take(m),
{
}

/// The interior face functions on the tetrahedron are the curls of the face functions of the
/// edge elements, and are free of divergence.
pub proof fn law_rt_interior_is_curl<R: Real>(x: R, y: R, z: R, dof: int, d: int)
    requires
        12 <= dof < 20,
        0 <= d < 3,
    ensures
        tet_rt_value(x, y, z, dof, d) == tet_nedelec_curl(x, y, z, dof, d),
        tet_rt_div(x, y, z, dof) == R::zero_val(),
{
}

} // verus!
