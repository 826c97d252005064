//! Normal (H(div)) bases on triangles and tetrahedra.
//!
//! Degrees of freedom are scalar; normal components are continuous across elements.

use vstd::prelude::*;

use crate::basis::BasisTrait;
use crate::cpu::vector_tables::{build_tables, VectorFamily, VectorTables};
#[allow(unused_imports)]
use crate::cpu::vector_tables::{tables_refusal, vector_dofs, vector_view, VectorView};
use crate::enums::{ElemTopology, EvalMode};
use crate::error::{ErrorKind, ReedError, ReedResult};
#[allow(unused_imports)]
use crate::error::refused;
use crate::scalar::{Real, Scalar};
use crate::text::Message;
#[allow(unused_imports)]
use crate::text::decimal;

verus! {

/// Dimension of the topologies that have a basis; zero for the others.
pub open spec fn rt_dim(topo: ElemTopology) -> int {
    match topo {
        ElemTopology::Triangle => 2,
        ElemTopology::Tet => 3,
        _ => 0,
    }
}

/// The basis that the parameters describe.
pub open spec fn rt_view<T: Scalar>(topo: ElemTopology, p: usize, q: usize) -> VectorView<T> {
    vector_view::<T>(
        VectorFamily::RaviartThomas,
        rt_dim(topo),
        vector_dofs(VectorFamily::RaviartThomas, rt_dim(topo), p as int),
        q as int,
    )
}

/// Why the parameters are refused, if they are.
pub open spec fn rt_refusal<T: Scalar>(topo: ElemTopology, p: usize, q: usize) -> Option<
    Seq<char>,
> {
    let dim = rt_dim(topo);
    let nd = vector_dofs(VectorFamily::RaviartThomas, dim, p as int);
    match topo {
        ElemTopology::Triangle | ElemTopology::Tet => if nd == 0 {
            Some(
                if dim == 2 {
                    "RaviartThomasBasis: p="@ + decimal(p as nat)
                        + " on Triangle not supported; use p=0, 1, or 2"@
                } else {
                    "RaviartThomasBasis: p="@ + decimal(p as nat)
                        + " on Tet not supported; use p=0 (RT0) or p=1 (RT1)"@
                },
            )
        } else {
            tables_refusal::<T>(VectorFamily::RaviartThomas, dim, nd, q)
        },
        ElemTopology::Pyramid | ElemTopology::Prism => Some(
            "RaviartThomasBasis: "@ + topo.name_text()
                + " not implemented (requires collapsed-coordinate or tensor×simplex transforms; available: Triangle, Tet)"@,
        ),
        _ => Some(
            "RaviartThomasBasis: unsupported topology "@ + topo.name_text()
                + " (need Triangle or Tet)"@,
        ),
    }
}

/// Raviart–Thomas face basis on a triangle (orders 0 to 2) or tetrahedron (orders 0 and 1).
pub struct RaviartThomasBasis<T: Real> {
    tables: VectorTables<T>,
}

impl<T: Real> View for RaviartThomasBasis<T> {
    type V = VectorView<T>;

    closed spec fn view(&self) -> VectorView<T> {
        self.tables@
    }
}

impl<T: Scalar> RaviartThomasBasis<T> {
    /// Builds the basis of order `p` on a triangle or tetrahedron, with `q` quadrature points.
    pub fn new(topo: ElemTopology, p: usize, q: usize) -> (r: ReedResult<Self>)
        ensures
            match rt_refusal::<T>(topo, p, q) {
                Some(m) => refused(r, ErrorKind::Basis, m),
                None => r matches Ok(b) && b.wf() && b@ == rt_view::<T>(topo, p, q),
            },
    {
        let (dim, num_dof) = match topo {
            ElemTopology::Triangle => {
                let n: usize = match p {
                    0 => 3,
                    1 => 8,
                    2 => 15,
                    _ => {
                        return Err(
                            ReedError::Basis(
                                Message::new("RaviartThomasBasis: p=").num(p).text(
                                    " on Triangle not supported; use p=0, 1, or 2",
                                ).done(),
                            ),
                        );
                    },
                };
                (2usize, n)
            },
            ElemTopology::Tet => {
                let n: usize = match p {
                    0 => 4,
                    1 => 20,
                    _ => {
                        return Err(
                            ReedError::Basis(
                                Message::new("RaviartThomasBasis: p=").num(p).text(
                                    " on Tet not supported; use p=0 (RT0) or p=1 (RT1)",
                                ).done(),
                            ),
                        );
                    },
                };
                (3usize, n)
            },
            ElemTopology::Pyramid | ElemTopology::Prism => {
                return Err(
                    ReedError::Basis(
                        Message::new("RaviartThomasBasis: ").text(topo.name()).text(
                            " not implemented (requires collapsed-coordinate or tensor×simplex transforms; available: Triangle, Tet)",
                        ).done(),
                    ),
                );
            },
            _ => {
                return Err(
                    ReedError::Basis(
                        Message::new("RaviartThomasBasis: unsupported topology ").text(topo.name()).text(
                            " (need Triangle or Tet)",
                        ).done(),
                    ),
                );
            },
        };
        match build_tables::<T>(VectorFamily::RaviartThomas, dim, p, num_dof, q) {
            Ok(tables) => Ok(RaviartThomasBasis { tables }),
            Err(e) => Err(e),
        }
    }
}

impl<T: Real> RaviartThomasBasis<T> {
    /// The basis is valid.
    pub closed spec fn inv(&self) -> bool {
        self.tables@.valid()
    }

    /// Value table, points × functions × directions.
    pub fn interp_data(&self) -> (m: &[T])
        ensures
            m@ == self@.interp,
    {
        self.tables.interp.as_slice()
    }

    /// Divergence table, points × functions.
    pub fn div_data(&self) -> (m: &[T])
        ensures
            m@ == self@.deriv,
    {
        self.tables.deriv.as_slice()
    }
}

impl<T: Real> BasisTrait<T> for RaviartThomasBasis<T> {
    open spec fn wf(&self) -> bool {
        self.inv() && self@.valid()
    }

    open spec fn dimension(&self) -> int {
        self@.dim as int
    }

    open spec fn dofs(&self) -> int {
        self@.num_dof as int
    }

    open spec fn qpoints(&self) -> int {
        self@.num_qpoints as int
    }

    open spec fn comps(&self) -> int {
        self@.dim as int
    }

    open spec fn weight_values(&self) -> Seq<T> {
        self@.weights
    }

    open spec fn point_values(&self) -> Seq<T> {
        self@.q_ref
    }

    open spec fn admits(
        &self,
        num_elem: int,
        transpose: bool,
        eval_mode: EvalMode,
        ulen: nat,
        vlen: nat,
    ) -> bool {
        self@.admits(num_elem, transpose, eval_mode)
    }

    open spec fn refusal(
        &self,
        num_elem: int,
        transpose: bool,
        eval_mode: EvalMode,
        ulen: nat,
        vlen: nat,
    ) -> Option<(ErrorKind, Seq<char>)> {
        self@.refusal(num_elem, transpose, eval_mode, ulen, vlen)
    }

    open spec fn applied(
        &self,
        num_elem: int,
        transpose: bool,
        eval_mode: EvalMode,
        u: Seq<T>,
        v: Seq<T>,
    ) -> Seq<T> {
        self@.applied(num_elem, transpose, eval_mode, u, v)
    }

    open spec fn tensor_tables(&self) -> Option<(Seq<T>, Seq<T>, Seq<T>, int, int)> {
        None
    }

    open spec fn face_weight_values(&self, local_face: int) -> Option<Seq<T>> {
        None
    }

    open spec fn face_point_values(&self, local_face: int) -> Option<Seq<T>> {
        None
    }

    fn dim(&self) -> (n: usize) {
        self.tables.dim
    }

    fn num_dof(&self) -> (n: usize) {
        self.tables.num_dof
    }

    fn num_qpoints(&self) -> (n: usize) {
        self.tables.num_qpoints
    }

    fn num_comp(&self) -> (n: usize) {
        self.tables.dim
    }

    fn apply(
        &self,
        num_elem: usize,
        transpose: bool,
        eval_mode: EvalMode,
        u: &[T],
        v: &mut [T],
    ) -> (r: ReedResult<()>) {
        self.tables.apply(num_elem, transpose, eval_mode, u, v)
    }

    fn q_weights(&self) -> (w: &[T]) {
        self.tables.weights.as_slice()
    }

    fn q_ref(&self) -> (x: &[T]) {
        self.tables.q_ref.as_slice()
    }

    fn face_q_weights(&self, _local_face: usize) -> (r: Option<Vec<T>>) {
        None
    }

    fn face_q_ref(&self, _local_face: usize) -> (r: Option<Vec<T>>) {
        None
    }

    fn tensor_fdm_1d_data(&self) -> (r: Option<(&[T], &[T], &[T], usize, usize)>) {
        None
    }
}

} // verus!
