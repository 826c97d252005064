//! Polynomials that the bases reproduce, with their derivatives.

use reed::basis::BasisTrait;
use reed::cpu::basis_lagrange::LagrangeBasis;
use reed::cpu::basis_prism::PrismBasis;
use reed::cpu::basis_pyramid::PyramidBasis;
use reed::cpu::basis_simplex::SimplexBasis;
use reed::cpu::quadrature::gauss_lobatto_nodes;
use reed::cpu::vector_shapes::{tet_nedelec_p2, tet_rt1, tri_nedelec_p3, tri_rt2};
use reed::enums::{ElemTopology, EvalMode, QuadMode};
use reed::scalar::{Real, Scalar};

/// Double-precision numbers.
#[derive(Clone, Copy, Debug, PartialEq, PartialOrd)]
struct F64(f64);

impl Real for F64 {
    fn zero() -> Self {
        F64(0.0)
    }
    fn one() -> Self {
        F64(1.0)
    }
    fn from_int(n: i64) -> Self {
        F64(n as f64)
    }
    fn pi() -> Self {
        F64(std::f64::consts::PI)
    }
    fn epsilon() -> Self {
        F64(f64::EPSILON)
    }
    fn add(self, rhs: Self) -> Self {
        F64(self.0 + rhs.0)
    }
    fn sub(self, rhs: Self) -> Self {
        F64(self.0 - rhs.0)
    }
    fn mul(self, rhs: Self) -> Self {
        F64(self.0 * rhs.0)
    }
    fn div(self, rhs: Self) -> Self {
        F64(self.0 / rhs.0)
    }
    fn neg(self) -> Self {
        F64(-self.0)
    }
    fn abs(self) -> Self {
        F64(self.0.abs())
    }
    fn sqrt(self) -> Self {
        F64(self.0.sqrt())
    }
    fn cos(self) -> Self {
        F64(self.0.cos())
    }
    fn lt(self, rhs: Self) -> bool {
        self.0 < rhs.0
    }
    fn le(self, rhs: Self) -> bool {
        self.0 <= rhs.0
    }
    fn eq_value(self, rhs: Self) -> bool {
        self.0 == rhs.0
    }
    fn to_text(self) -> String {
        format!("{}", self.0)
    }
}

impl Scalar for F64 {
    type Work = F64;

    fn from_work(w: F64) -> Option<Self> {
        Some(w)
    }
    fn to_work(self) -> F64 {
        self
    }
}

fn wrap(x: &[f64]) -> Vec<F64> {
    x.iter().map(|v| F64(*v)).collect()
}

type Point = [f64; 3];

/// Nodes of the simplex bases.
fn simplex_nodes(topo: ElemTopology, poly: usize) -> Vec<Point> {
    let thirds: &[[i32; 3]] = match (topo, poly) {
        (ElemTopology::Line, 1) => &[[0, 0, 0], [6, 0, 0]],
        (ElemTopology::Line, 2) => &[[0, 0, 0], [3, 0, 0], [6, 0, 0]],
        (ElemTopology::Line, _) => &[[0, 0, 0], [2, 0, 0], [4, 0, 0], [6, 0, 0]],
        (ElemTopology::Triangle, 1) => &[[0, 0, 0], [6, 0, 0], [0, 6, 0]],
        (ElemTopology::Triangle, 2) => {
            &[[0, 0, 0], [6, 0, 0], [0, 6, 0], [3, 0, 0], [3, 3, 0], [0, 3, 0]]
        }
        (ElemTopology::Triangle, _) => &[
            [0, 0, 0],
            [6, 0, 0],
            [0, 6, 0],
            [2, 0, 0],
            [4, 0, 0],
            [4, 2, 0],
            [2, 4, 0],
            [0, 2, 0],
            [0, 4, 0],
            [2, 2, 0],
        ],
        (_, 1) => &[[0, 0, 0], [6, 0, 0], [0, 6, 0], [0, 0, 6]],
        (_, 2) => &[
            [0, 0, 0],
            [6, 0, 0],
            [0, 6, 0],
            [0, 0, 6],
            [3, 0, 0],
            [3, 3, 0],
            [0, 3, 0],
            [0, 0, 3],
            [3, 0, 3],
            [0, 3, 3],
        ],
        (_, _) => &[
            [0, 0, 6],
            [0, 2, 4],
            [0, 4, 2],
            [0, 6, 0],
            [2, 0, 4],
            [2, 2, 2],
            [2, 4, 0],
            [4, 0, 2],
            [4, 2, 0],
            [6, 0, 0],
            [0, 0, 4],
            [0, 2, 2],
            [0, 4, 0],
            [2, 0, 2],
            [2, 2, 0],
            [4, 0, 0],
            [0, 0, 2],
            [0, 2, 0],
            [2, 0, 0],
            [0, 0, 0],
        ],
    };
    thirds.iter().map(|p| p.map(|c| f64::from(c) / 6.0)).collect()
}

/// A power of a linear function, which holds every monomial of its degree.
fn power(p: Point, n: usize) -> f64 {
    (1.0 + 2.0 * p[0] - p[1] + 3.0 * p[2]).powi(n as i32)
}

fn power_gradient(p: Point, n: usize) -> Point {
    let s = n as f64 * power(p, n - 1);
    [2.0 * s, -s, 3.0 * s]
}

fn point(q_ref: &[F64], dim: usize, i: usize) -> Point {
    let mut p = [0.0; 3];
    for d in 0..dim {
        p[d] = q_ref[i * dim + d].0;
    }
    p
}

fn check(
    b: &dyn BasisTrait<F64>,
    nodal: &[f64],
    value: &dyn Fn(Point) -> f64,
    slope: &dyn Fn(Point) -> Point,
) {
    let (dim, nq) = (b.dim(), b.num_qpoints());
    assert_eq!(nodal.len(), b.num_dof());
    let mut v = wrap(&vec![0.0; nq]);
    b.apply(1, false, EvalMode::Interp, &wrap(nodal), &mut v).unwrap();
    let mut g = wrap(&vec![0.0; nq * dim]);
    b.apply(1, false, EvalMode::Grad, &wrap(nodal), &mut g).unwrap();
    for i in 0..nq {
        let p = point(b.q_ref(), dim, i);
        assert!((v[i].0 - value(p)).abs() < 1e-10, "point {i}");
        for d in 0..dim {
            assert!((g[i * dim + d].0 - slope(p)[d]).abs() < 1e-9, "point {i}, axis {d}");
        }
    }
}

fn simplex_case(topo: ElemTopology, poly: usize, q: usize) {
    let b = SimplexBasis::<F64>::new(topo, poly, 1, q).unwrap();
    for n in 1..=poly {
        let nodal: Vec<f64> = simplex_nodes(topo, poly).iter().map(|p| power(*p, n)).collect();
        check(&b, &nodal, &|p| power(p, n), &|p| power_gradient(p, n));
    }
}

#[test]
fn segments_reproduce_their_order() {
    for (poly, q) in [(1, 2), (2, 3), (3, 3)] {
        simplex_case(ElemTopology::Line, poly, q);
    }
}

#[test]
fn triangles_reproduce_their_order() {
    for (poly, q) in [(1, 3), (2, 4), (3, 7)] {
        simplex_case(ElemTopology::Triangle, poly, q);
    }
}

#[test]
fn tetrahedra_reproduce_their_order() {
    for (poly, q) in [(1, 4), (2, 4), (3, 5)] {
        simplex_case(ElemTopology::Tet, poly, q);
    }
}

/// The monomial with the given exponents and its gradient.
fn monomial(p: Point, e: [i32; 3]) -> (f64, Point) {
    let f = |d: usize| p[d].powi(e[d]);
    let g = |d: usize| if e[d] == 0 { 0.0 } else { f64::from(e[d]) * p[d].powi(e[d] - 1) };
    (f(0) * f(1) * f(2), [g(0) * f(1) * f(2), f(0) * g(1) * f(2), f(0) * f(1) * g(2)])
}

fn grid(nodes: &[F64], dim: usize) -> Vec<Point> {
    let n = nodes.len();
    (0..n.pow(dim as u32))
        .map(|k| {
            let mut p = [0.0; 3];
            for (d, c) in p.iter_mut().enumerate().take(dim) {
                *c = nodes[k / n.pow(d as u32) % n].0;
            }
            p
        })
        .collect()
}

#[test]
fn tensor_bases_reproduce_monomials() {
    let nodes = gauss_lobatto_nodes::<F64>(4).unwrap();
    for (dim, q, mode) in [
        (1, 5, QuadMode::Gauss),
        (2, 4, QuadMode::GaussLobatto),
        (3, 3, QuadMode::Gauss),
    ] {
        let b = LagrangeBasis::<F64>::new(dim, 1, 4, q, mode).unwrap();
        let mut e = [3, 2, 1];
        for d in dim..3 {
            e[d] = 0;
        }
        let nodal: Vec<f64> = grid(&nodes, dim).iter().map(|p| monomial(*p, e).0).collect();
        check(&b, &nodal, &|p| monomial(p, e).0, &|p| monomial(p, e).1);
    }
}

#[test]
fn prisms_reproduce_products() {
    let b = PrismBasis::<F64>::new(2, 3, 6, 3, 1).unwrap();
    let line = gauss_lobatto_nodes::<F64>(3).unwrap();
    let tri = |p: Point| (power([p[0], p[1], 0.0], 2), power_gradient([p[0], p[1], 0.0], 2));
    let mut nodal = Vec::new();
    for p in simplex_nodes(ElemTopology::Triangle, 2) {
        for z in &line {
            nodal.push(tri(p).0 * z.0 * z.0);
        }
    }
    check(&b, &nodal, &|p| tri(p).0 * p[2] * p[2], &|p| {
        let (f, g) = tri(p);
        [g[0] * p[2] * p[2], g[1] * p[2] * p[2], f * 2.0 * p[2]]
    });
}

#[test]
fn pyramids_reproduce_monomials_of_the_cube() {
    let b = PyramidBasis::<F64>::new(3, 3, QuadMode::Gauss, 1).unwrap();
    let cube = LagrangeBasis::<F64>::new(3, 1, 3, 3, QuadMode::Gauss).unwrap();
    let nodes = gauss_lobatto_nodes::<F64>(3).unwrap();
    let e = [2, 1, 2];
    let nodal: Vec<f64> = grid(&nodes, 3).iter().map(|p| monomial(*p, e).0).collect();
    let mut v = wrap(&[0.0; 27]);
    b.apply(1, false, EvalMode::Interp, &wrap(&nodal), &mut v).unwrap();
    let mut g = wrap(&[0.0; 81]);
    b.apply(1, false, EvalMode::Grad, &wrap(&nodal), &mut g).unwrap();
    for i in 0..27 {
        let p = point(cube.q_ref(), 3, i);
        let (f, h) = monomial(p, e);
        assert!((v[i].0 - f).abs() < 1e-12);
        // the chain rule through r = ξ (1 - ζ)/2, s = η (1 - ζ)/2, t = ζ
        let w = 1.0 - p[2];
        let want = [2.0 * h[0] / w, 2.0 * h[1] / w, (p[0] * h[0] + p[1] * h[1]) / w + h[2]];
        for d in 0..3 {
            assert!((g[3 * i + d].0 - want[d]).abs() < 1e-9, "point {i}, axis {d}");
        }
    }
}

// ── curls and divergences ──────────────────────────────────────────────────

/// The derivative of a cubic along axis `d`, exact up to rounding.
fn derivative(f: &dyn Fn(Point) -> f64, p: Point, d: usize) -> f64 {
    let at = |s: f64| {
        let mut q = p;
        q[d] += s;
        f(q)
    };
    (8.0 * (at(0.5) - at(-0.5)) - (at(1.0) - at(-1.0))) / 6.0
}

#[test]
fn triangle_curls_and_divergences_are_those_of_the_functions() {
    let p = [0.2, 0.3, 0.0];
    let edge = |p: Point, k: usize| tri_nedelec_p3(F64(p[0]), F64(p[1])).0[k].0;
    let face = |p: Point, k: usize| tri_rt2(F64(p[0]), F64(p[1])).0[k].0;
    let (_, curls) = tri_nedelec_p3(F64(p[0]), F64(p[1]));
    let (_, divs) = tri_rt2(F64(p[0]), F64(p[1]));
    for dof in 0..15 {
        let curl = derivative(&|p| edge(p, 2 * dof + 1), p, 0)
            - derivative(&|p| edge(p, 2 * dof), p, 1);
        assert!((curls[dof].0 - curl).abs() < 1e-12, "function {dof}");
        let div = derivative(&|p| face(p, 2 * dof), p, 0)
            + derivative(&|p| face(p, 2 * dof + 1), p, 1);
        assert!((divs[dof].0 - div).abs() < 1e-12, "function {dof}");
    }
}

#[test]
fn tetrahedron_curls_and_divergences_are_those_of_the_functions() {
    let p = [0.2, 0.3, 0.1];
    let edge = |p: Point, k: usize| tet_nedelec_p2(F64(p[0]), F64(p[1]), F64(p[2])).0[k].0;
    let (_, curls) = tet_nedelec_p2(F64(p[0]), F64(p[1]), F64(p[2]));
    for dof in 0..20 {
        for d in 0..3 {
            let (a, b) = ((d + 1) % 3, (d + 2) % 3);
            let curl = derivative(&|p| edge(p, 3 * dof + b), p, a)
                - derivative(&|p| edge(p, 3 * dof + a), p, b);
            assert!((curls[3 * dof + d].0 - curl).abs() < 1e-12, "function {dof}, {d}");
        }
    }
    let face = |p: Point, k: usize| tet_rt1(F64(p[0]), F64(p[1]), F64(p[2])).0[k].0;
    let (values, divs) = tet_rt1(F64(p[0]), F64(p[1]), F64(p[2]));
    for dof in 0..values.len() / 3 {
        let div: f64 = (0..3).map(|d| derivative(&|p| face(p, 3 * dof + d), p, d)).sum();
        assert!((divs[dof].0 - div).abs() < 1e-12, "function {dof}");
    }
}
