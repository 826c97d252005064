//! Modes and topologies.

use vstd::prelude::*;

verus! {

/// Memory location type.
#[derive(Debug, Clone, Copy, PartialEq, Eq, Structural)]
pub enum MemType {
    Host,
    Device,
}

/// Basis evaluation mode.
#[derive(Debug, Clone, Copy, PartialEq, Eq, Structural)]
pub enum EvalMode {
    /// No evaluation: the values are passed through.
    NoEval,
    /// Interpolation B·u.
    Interp,
    /// Gradient ∇B·u.
    Grad,
    /// Divergence ∇·B·u of a vector field with one component per axis: the sum of the Cartesian
    /// component partial derivatives.
    Div,
    /// Curl ∇×B·u: a scalar in 2D with two components, three components in 3D.
    Curl,
    /// Quadrature weights.
    Weight,
    /// Curl of an H(curl) basis: a scalar in 2D, a 3-vector in 3D, at each quadrature point.
    HCurl,
    /// Divergence of an H(div) basis: a scalar at each quadrature point.
    HDiv,
}

impl EvalMode {
    /// The name of the mode, as messages print it.
    pub open spec fn name_text(self) -> Seq<char> {
        match self {
            EvalMode::NoEval => "None"@,
            EvalMode::Interp => "Interp"@,
            EvalMode::Grad => "Grad"@,
            EvalMode::Div => "Div"@,
            EvalMode::Curl => "Curl"@,
            EvalMode::Weight => "Weight"@,
            EvalMode::HCurl => "HCurl"@,
            EvalMode::HDiv => "HDiv"@,
        }
    }

    /// The name of the mode.
    pub fn name(self) -> (s: &'static str)
        ensures
            s@ == self.name_text(),
    {
        match self {
            EvalMode::NoEval => "None",
            EvalMode::Interp => "Interp",
            EvalMode::Grad => "Grad",
            EvalMode::Div => "Div",
            EvalMode::Curl => "Curl",
            EvalMode::Weight => "Weight",
            EvalMode::HCurl => "HCurl",
            EvalMode::HDiv => "HDiv",
        }
    }
}

/// Quadrature point distribution type.
#[derive(Debug, Clone, Copy, PartialEq, Eq, Structural)]
pub enum QuadMode {
    Gauss,
    GaussLobatto,
}

/// Transpose mode.
#[derive(Debug, Clone, Copy, PartialEq, Eq, Structural)]
pub enum TransposeMode {
    NoTranspose,
    Transpose,
}

/// Vector norm type.
#[derive(Debug, Clone, Copy, PartialEq, Eq, Structural)]
pub enum NormType {
    /// L1 norm.
    One,
    /// L2 norm.
    Two,
    /// L-infinity norm.
    Max,
}

/// Reference element topology.
#[derive(Debug, Clone, Copy, PartialEq, Eq, Structural)]
pub enum ElemTopology {
    Line,
    Triangle,
    Quad,
    Tet,
    Pyramid,
    Prism,
    Hex,
}

impl ElemTopology {
    /// The name of the topology, as messages print it.
    pub open spec fn name_text(self) -> Seq<char> {
        match self {
            ElemTopology::Line => "Line"@,
            ElemTopology::Triangle => "Triangle"@,
            ElemTopology::Quad => "Quad"@,
            ElemTopology::Tet => "Tet"@,
            ElemTopology::Pyramid => "Pyramid"@,
            ElemTopology::Prism => "Prism"@,
            ElemTopology::Hex => "Hex"@,
        }
    }

    /// The name of the topology.
    pub fn name(self) -> (s: &'static str)
        ensures
            s@ == self.name_text(),
    {
        match self {
            ElemTopology::Line => "Line",
            ElemTopology::Triangle => "Triangle",
            ElemTopology::Quad => "Quad",
            ElemTopology::Tet => "Tet",
            ElemTopology::Pyramid => "Pyramid",
            ElemTopology::Prism => "Prism",
            ElemTopology::Hex => "Hex",
        }
    }
}

} // verus!
