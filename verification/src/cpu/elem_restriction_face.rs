//! Face restriction: boundary faces and their parent elements.

use vstd::prelude::*;

use crate::cpu::elem_restriction::length_error;
#[allow(unused_imports)]
use crate::cpu::elem_restriction::transfer_refusal;
use crate::cpu::gather::{gather, scatter, LocalMap};
#[allow(unused_imports)]
use crate::cpu::gather::{
    first_fault, gathered, lemma_before_first_fault, lemma_first_fault_range,
    lemma_scatter_adjoint, scattered, stopping_fault,
};
use crate::csr::CsrPattern;
use crate::elem_restriction::{no_pattern, BoxedClone, ElemRestrictionTrait};
#[allow(unused_imports)]
use crate::elem_restriction::no_pattern_text;
use crate::enums::TransposeMode;
use crate::error::{ErrorKind, ReedError, ReedResult};
#[allow(unused_imports)]
use crate::error::refused;
#[allow(unused_imports)]
use crate::index::{lemma_flat, lemma_flat3, lemma_split, lemma_split3};
use crate::scalar::Real;
#[allow(unused_imports)]
use crate::scalar::{exact_ring, inner};
use crate::text::Message;
#[allow(unused_imports)]
use crate::text::{decimal, signed_decimal};
use crate::types::CeedInt;

verus! {

/// The mathematical content of a [`CpuFaceElemRestriction`].
///
/// A face-local vector is numbered by face, then component, then face node.
pub struct FaceView {
    pub num_faces: usize,
    pub num_dof_per_face: usize,
    pub num_dof_per_elem: usize,
    pub ncomp: usize,
    pub num_global_dof: usize,
    pub face_to_elem: Seq<(usize, usize)>,
    pub face_offsets: Seq<CeedInt>,
    pub elem_offsets: Seq<CeedInt>,
    pub face_to_elem_local: Seq<usize>,
}

impl FaceView {
    /// Length of a face-local vector.
    pub open spec fn count(self) -> int {
        self.num_faces * self.num_dof_per_face * self.ncomp
    }

    /// Number of parent elements.
    pub open spec fn parents(self) -> int {
        self.elem_offsets.len() as int / (self.ncomp * self.num_dof_per_elem)
    }

    /// The tables fit together.
    pub open spec fn valid(self) -> bool {
        &&& self.num_faces * self.num_dof_per_face <= usize::MAX
        &&& self.count() <= usize::MAX
        &&& 0 < self.ncomp * self.num_dof_per_elem <= usize::MAX
        &&& self.face_offsets.len() == self.count()
        &&& self.face_to_elem_local.len() == self.num_faces * self.num_dof_per_face
        &&& self.face_to_elem.len() == self.num_faces
        &&& self.elem_offsets.len() == self.parents() * (self.ncomp * self.num_dof_per_elem)
        &&& self.elem_offsets.len() <= usize::MAX
        &&& forall|f: int|
            0 <= f < self.num_faces ==> (#[trigger] self.face_to_elem[f]).0 < self.parents()
        &&& forall|i: int|
            0 <= i < self.face_to_elem_local.len() ==> #[trigger] self.face_to_elem_local[i]
                < self.num_dof_per_elem
    }

    /// What is wrong with the global index `g`, given how a negative one is reported.
    pub open spec fn index_fault(self, g: int, negative: Seq<char>) -> Option<Seq<char>> {
        if g < 0 {
            Some(negative)
        } else if g >= self.num_global_dof {
            Some(
                "global index "@ + decimal(g as nat) + " out of bounds for lsize "@ + decimal(
                    self.num_global_dof as nat,
                ),
            )
        } else {
            None
        }
    }

    /// Global index read at face-local position `l`.
    pub open spec fn source(self, l: int) -> int {
        self.face_offsets[l] as int
    }

    /// What is wrong with reading at face-local position `l`, if anything.
    pub open spec fn source_fault(self, l: int) -> Option<Seq<char>> {
        let chunk = self.ncomp * self.num_dof_per_face;
        self.index_fault(
            self.source(l),
            "negative face offset "@ + signed_decimal(self.source(l)) + " at face "@ + decimal(
                (l / chunk) as nat,
            ) + ", local "@ + decimal((l % chunk) as nat),
        )
    }

    /// Face of face-local position `l`.
    pub open spec fn face(self, l: int) -> int {
        l / (self.num_dof_per_face as int) / (self.ncomp as int)
    }

    /// Component of face-local position `l`.
    pub open spec fn comp(self, l: int) -> int {
        l / (self.num_dof_per_face as int) % (self.ncomp as int)
    }

    /// Face node of face-local position `l`.
    pub open spec fn node(self, l: int) -> int {
        l % (self.num_dof_per_face as int)
    }

    /// Parent element of face-local position `l`.
    pub open spec fn parent(self, l: int) -> int {
        self.face_to_elem[self.face(l)].0 as int
    }

    /// Global index that face-local position `l` is added to: the degree of freedom of the parent
    /// element's node that the face node is.
    pub open spec fn sink(self, l: int) -> int {
        self.elem_offsets[self.parent(l) * self.ncomp * self.num_dof_per_elem + self.comp(l)
            * self.num_dof_per_elem + self.face_to_elem_local[self.face(l) * self.num_dof_per_face
            + self.node(l)]] as int
    }

    /// What is wrong with adding at face-local position `l`, if anything.
    pub open spec fn sink_fault(self, l: int) -> Option<Seq<char>> {
        self.index_fault(
            self.sink(l),
            "negative elem offset "@ + signed_decimal(self.sink(l)) + " at face "@ + decimal(
                self.face(l) as nat,
            ) + ", elem "@ + decimal(self.parent(l) as nat) + ", comp "@ + decimal(
                self.comp(l) as nat,
            ) + ", local "@ + decimal(self.node(l) as nat),
        )
    }

    /// Global indices read, for all positions.
    pub open spec fn sources(self) -> spec_fn(int) -> int {
        |l: int| self.source(l)
    }

    /// Read faults of all positions.
    pub open spec fn source_faults(self) -> spec_fn(int) -> Option<Seq<char>> {
        |l: int| self.source_fault(l)
    }

    /// Global indices added to, for all positions.
    pub open spec fn sinks(self) -> spec_fn(int) -> int {
        |l: int| self.sink(l)
    }

    /// Addition faults of all positions.
    pub open spec fn sink_faults(self) -> spec_fn(int) -> Option<Seq<char>> {
        |l: int| self.sink_fault(l)
    }

    /// `e` reports the first entry of the tables that is out of range.
    pub open spec fn entry_fault(self, e: (ErrorKind, Seq<char>)) -> bool {
        ||| exists|f: int| #[trigger]
            self.first_orphan(f) && e == (
                ErrorKind::InvalidArgument,
                "face_to_elem["@ + decimal(f as nat) + "] elem_id "@ + decimal(
                    self.face_to_elem[f].0 as nat,
                ) + " out of range (num_parent_elems = "@ + decimal(self.parents() as nat) + ")"@,
            )
        ||| !self.orphaned() && exists|i: int| #[trigger]
            self.first_misplaced(i) && e == (
                ErrorKind::InvalidArgument,
                "face_to_elem_local["@ + decimal(i as nat) + "] = "@ + decimal(
                    self.face_to_elem_local[i] as nat,
                ) + " out of range (num_dof_per_elem = "@ + decimal(self.num_dof_per_elem as nat)
                    + ")"@,
            )
    }

    /// The message that refuses these tables, if they do not fit together.
    pub open spec fn table_message(self) -> Option<Seq<char>> {
        let faces = self.num_faces * self.num_dof_per_face;
        let block = self.ncomp * self.num_dof_per_elem;
        if self.face_offsets.len() != self.count() {
            Some(
                "face_offsets length "@ + decimal(self.face_offsets.len())
                    + " != num_faces * num_dof_per_face * ncomp = "@ + decimal(self.count() as nat),
            )
        } else if self.face_to_elem_local.len() != faces {
            Some(
                "face_to_elem_local length "@ + decimal(self.face_to_elem_local.len())
                    + " != num_faces * num_dof_per_face = "@ + decimal(faces as nat),
            )
        } else if self.face_to_elem.len() != self.num_faces {
            Some(
                "face_to_elem length "@ + decimal(self.face_to_elem.len()) + " != num_faces "@
                    + decimal(self.num_faces as nat),
            )
        } else if block == 0 || self.elem_offsets.len() != self.parents() * block {
            Some(
                "elem_offsets length "@ + decimal(self.elem_offsets.len())
                    + " must be a positive multiple of ncomp * num_dof_per_elem = "@ + decimal(
                    block as nat,
                ),
            )
        } else {
            None
        }
    }

    /// `f` is the first face whose parent does not exist.
    pub open spec fn first_orphan(self, f: int) -> bool {
        &&& 0 <= f < self.num_faces
        &&& self.face_to_elem[f].0 >= self.parents()
        &&& forall|g: int| 0 <= g < f ==> (#[trigger] self.face_to_elem[g]).0 < self.parents()
    }

    /// `i` is the first entry that names a node its parent element does not have.
    pub open spec fn first_misplaced(self, i: int) -> bool {
        &&& 0 <= i < self.face_to_elem_local.len()
        &&& self.face_to_elem_local[i] >= self.num_dof_per_elem
        &&& forall|j: int|
            0 <= j < i ==> #[trigger] self.face_to_elem_local[j] < self.num_dof_per_elem
    }

    /// Some face's parent does not exist.
    pub open spec fn orphaned(self) -> bool {
        exists|f: int|
            0 <= f < self.num_faces && (#[trigger] self.face_to_elem[f]).0 >= self.parents()
    }
}

/// Restriction of boundary faces.
///
/// Gathering reads global values through `face_offsets`. Scattering routes each face node through
/// `face_to_elem_local` to its place in the parent element and adds at the global index that
/// `elem_offsets` gives there.
pub struct CpuFaceElemRestriction<T: Real> {
    num_faces: usize,
    num_dof_per_face: usize,
    num_dof_per_elem: usize,
    ncomp: usize,
    num_global_dof: usize,
    face_to_elem: Vec<(usize, usize)>,
    face_offsets: Vec<CeedInt>,
    elem_offsets: Vec<CeedInt>,
    face_to_elem_local: Vec<usize>,
    marker: core::marker::PhantomData<T>,
}

impl<T: Real> View for CpuFaceElemRestriction<T> {
    type V = FaceView;

    closed spec fn view(&self) -> FaceView {
        FaceView {
            num_faces: self.num_faces,
            num_dof_per_face: self.num_dof_per_face,
            num_dof_per_elem: self.num_dof_per_elem,
            ncomp: self.ncomp,
            num_global_dof: self.num_global_dof,
            face_to_elem: self.face_to_elem@,
            face_offsets: self.face_offsets@,
            elem_offsets: self.elem_offsets@,
            face_to_elem_local: self.face_to_elem_local@,
        }
    }
}

impl<T: Real> CpuFaceElemRestriction<T> {
    /// Builds the restriction from its tables, which are checked against each other.
    #[verifier::loop_isolation(false)]
    pub fn new(
        num_faces: usize,
        num_dof_per_face: usize,
        num_dof_per_elem: usize,
        ncomp: usize,
        num_global_dof: usize,
        face_to_elem: Vec<(usize, usize)>,
        face_offsets: Vec<CeedInt>,
        elem_offsets: Vec<CeedInt>,
        face_to_elem_local: Vec<usize>,
    ) -> (r: ReedResult<Self>)
        requires
            num_faces * num_dof_per_face <= usize::MAX,
            num_faces * num_dof_per_face * ncomp <= usize::MAX,
            ncomp * num_dof_per_elem <= usize::MAX,
        ensures
            ({
                let view = FaceView {
                    num_faces,
                    num_dof_per_face,
                    num_dof_per_elem,
                    ncomp,
                    num_global_dof,
                    face_to_elem: face_to_elem@,
                    face_offsets: face_offsets@,
                    elem_offsets: elem_offsets@,
                    face_to_elem_local: face_to_elem_local@,
                };
                match view.table_message() {
                    Some(m) => refused(r, ErrorKind::InvalidArgument, m),
                    None => match r {
                        Ok(x) => x@ == view && view.valid(),
                        Err(e) => view.entry_fault(e@),
                    },
                }
            }),
    {
        let ghost view = FaceView {
            num_faces,
            num_dof_per_face,
            num_dof_per_elem,
            ncomp,
            num_global_dof,
            face_to_elem: face_to_elem@,
            face_offsets: face_offsets@,
            elem_offsets: elem_offsets@,
            face_to_elem_local: face_to_elem_local@,
        };
        let face_nodes: usize = num_faces * num_dof_per_face;
        let face_offsets_expected: usize = face_nodes * ncomp;
        if face_offsets.len() != face_offsets_expected {
            return Err(
                ReedError::InvalidArgument(
                    Message::new("face_offsets length ").num(face_offsets.len()).text(
                        " != num_faces * num_dof_per_face * ncomp = ",
                    ).num(face_offsets_expected).done(),
                ),
            );
        }
        if face_to_elem_local.len() != face_nodes {
            return Err(
                ReedError::InvalidArgument(
                    Message::new("face_to_elem_local length ").num(face_to_elem_local.len()).text(
                        " != num_faces * num_dof_per_face = ",
                    ).num(face_nodes).done(),
                ),
            );
        }
        if face_to_elem.len() != num_faces {
            return Err(
                ReedError::InvalidArgument(
                    Message::new("face_to_elem length ").num(face_to_elem.len()).text(
                        " != num_faces ",
                    ).num(num_faces).done(),
                ),
            );
        }
        let block: usize = ncomp * num_dof_per_elem;
        let table: usize = elem_offsets.len();
        if block == 0 || table % block != 0 {
            proof {
                if block != 0 {
                    lemma_not_multiple(table as int, block as int);
                }
            }
            return Err(
                ReedError::InvalidArgument(
                    Message::new("elem_offsets length ").num(table).text(
                        " must be a positive multiple of ncomp * num_dof_per_elem = ",
                    ).num(block).done(),
                ),
            );
        }
        let num_parent_elems: usize = table / block;
        proof {
            lemma_not_multiple(table as int, block as int);
        }
        for face in 0..num_faces
            invariant
                num_parent_elems == view.parents(),
                num_faces == view.num_faces,
                view.face_to_elem == face_to_elem@,
                face_to_elem@.len() == num_faces,
                view.table_message() is None,
                forall|g: int|
                    0 <= g < face ==> (#[trigger] view.face_to_elem[g]).0 < view.parents(),
        {
            let elem_id: usize = face_to_elem[face].0;
            if elem_id >= num_parent_elems {
                assert(view.first_orphan(face as int));
                return Err(
                    ReedError::InvalidArgument(
                        Message::new("face_to_elem[").num(face).text("] elem_id ").num(
                            elem_id,
                        ).text(" out of range (num_parent_elems = ").num(num_parent_elems).text(
                            ")",
                        ).done(),
                    ),
                );
            }
        }
        for idx in 0..face_nodes
            invariant
                face_nodes == view.face_to_elem_local.len(),
                num_dof_per_elem == view.num_dof_per_elem,
                view.face_to_elem_local == face_to_elem_local@,
                view.table_message() is None,
                !view.orphaned(),
                forall|j: int|
                    0 <= j < idx ==> #[trigger] view.face_to_elem_local[j] < view.num_dof_per_elem,
        {
            let elocal: usize = face_to_elem_local[idx];
            if elocal >= num_dof_per_elem {
                assert(view.first_misplaced(idx as int));
                return Err(
                    ReedError::InvalidArgument(
                        Message::new("face_to_elem_local[").num(idx).text("] = ").num(
                            elocal,
                        ).text(" out of range (num_dof_per_elem = ").num(num_dof_per_elem).text(
                            ")",
                        ).done(),
                    ),
                );
            }
        }
        assert(view.valid());
        Ok(
            CpuFaceElemRestriction {
                num_faces,
                num_dof_per_face,
                num_dof_per_elem,
                ncomp,
                num_global_dof,
                face_to_elem,
                face_offsets,
                elem_offsets,
                face_to_elem_local,
                marker: core::marker::PhantomData,
            },
        )
    }

    fn bounded(&self, g: usize) -> (r: ReedResult<usize>)
        ensures
            match self@.index_fault(g as int, Seq::empty()) {
                Some(m) => refused(r, ErrorKind::ElemRestriction, m),
                None => r == Ok::<usize, ReedError>(g),
            },
    {
        if g >= self.num_global_dof {
            return Err(
                ReedError::ElemRestriction(
                    Message::new("global index ").num(g).text(" out of bounds for lsize ").num(
                        self.num_global_dof,
                    ).done(),
                ),
            );
        }
        Ok(g)
    }
}

/// A number is a multiple of `b` exactly when its quotient times `b` gives it back.
proof fn lemma_not_multiple(a: int, b: int)
    requires
        0 <= a,
        0 < b,
    ensures
        a % b == 0 <==> a == (a / b) * b,
{
    vstd::arithmetic::div_mod::lemma_fundamental_div_mod(a, b);
    assert(b * (a / b) == (a / b) * b) by (nonlinear_arith);
}

/// Reading side of a face restriction.
struct FaceSource<'a, T: Real> {
    faces: &'a CpuFaceElemRestriction<T>,
}

/// Adding side of a face restriction.
struct FaceSink<'a, T: Real> {
    faces: &'a CpuFaceElemRestriction<T>,
}

impl<'a, T: Real> LocalMap for FaceSource<'a, T> {
    closed spec fn usable(&self) -> bool {
        self.faces@.valid()
    }

    closed spec fn count(&self) -> int {
        self.faces@.count()
    }

    closed spec fn global(&self) -> int {
        self.faces@.num_global_dof as int
    }

    closed spec fn targets(&self) -> spec_fn(int) -> int {
        self.faces@.sources()
    }

    closed spec fn faults(&self) -> spec_fn(int) -> Option<Seq<char>> {
        self.faces@.source_faults()
    }

    fn locate(&self, l: usize) -> (r: ReedResult<usize>) {
        let g: CeedInt = self.faces.face_offsets[l];
        if g < 0 {
            let ghost (nf, nd, nc) = (
                self.faces.num_faces as int,
                self.faces.num_dof_per_face as int,
                self.faces.ncomp as int,
            );
            proof {
                assert(nf * nd * nc == nf * (nc * nd)) by (nonlinear_arith);
                assert(0 <= nc * nd) by (nonlinear_arith)
                    requires
                        0 <= nc,
                        0 <= nd,
                ;
                lemma_split(l as int, nf, nc * nd);
                assert(nc * nd <= nf * (nc * nd)) by (nonlinear_arith)
                    requires
                        1 <= nf,
                        0 <= nc * nd,
                ;
            }
            let chunk: usize = self.faces.ncomp * self.faces.num_dof_per_face;
            return Err(
                ReedError::ElemRestriction(
                    Message::new("negative face offset ").signed(g as i64).text(" at face ").num(
                        l / chunk,
                    ).text(", local ").num(l % chunk).done(),
                ),
            );
        }
        self.faces.bounded(g as usize)
    }
}

impl<'a, T: Real> LocalMap for FaceSink<'a, T> {
    closed spec fn usable(&self) -> bool {
        self.faces@.valid()
    }

    closed spec fn count(&self) -> int {
        self.faces@.count()
    }

    closed spec fn global(&self) -> int {
        self.faces@.num_global_dof as int
    }

    closed spec fn targets(&self) -> spec_fn(int) -> int {
        self.faces@.sinks()
    }

    closed spec fn faults(&self) -> spec_fn(int) -> Option<Seq<char>> {
        self.faces@.sink_faults()
    }

    fn locate(&self, l: usize) -> (r: ReedResult<usize>) {
        let ghost view = self.faces@;
        proof {
            lemma_face_position(view, l as int);
        }
        let node: usize = l % self.faces.num_dof_per_face;
        let row: usize = l / self.faces.num_dof_per_face;
        let comp: usize = row % self.faces.ncomp;
        let face: usize = row / self.faces.ncomp;
        let elem_id: usize = self.faces.face_to_elem[face].0;
        let elocal: usize = self.faces.face_to_elem_local[face * self.faces.num_dof_per_face + node];
        proof {
            lemma_parent_slot(view, elem_id as int, comp as int, elocal as int);
        }
        let g: CeedInt = self.faces.elem_offsets[elem_id * self.faces.ncomp
            * self.faces.num_dof_per_elem + comp * self.faces.num_dof_per_elem + elocal];
        if g < 0 {
            return Err(
                ReedError::ElemRestriction(
                    Message::new("negative elem offset ").signed(g as i64).text(" at face ").num(
                        face,
                    ).text(", elem ").num(elem_id).text(", comp ").num(comp).text(", local ").num(
                        node,
                    ).done(),
                ),
            );
        }
        self.faces.bounded(g as usize)
    }
}

/// Face, component and node of a face-local position are in range.
pub proof fn lemma_face_position(view: FaceView, l: int)
    requires
        0 <= l < view.count(),
    ensures
        0 < view.num_faces && 0 < view.ncomp && 0 < view.num_dof_per_face,
        0 <= view.face(l) < view.num_faces,
        0 <= view.comp(l) < view.ncomp,
        0 <= view.node(l) < view.num_dof_per_face,
        0 <= view.face(l) * view.num_dof_per_face,
        view.face(l) * view.num_dof_per_face + view.node(l) < view.num_faces
            * view.num_dof_per_face,
{
    let (nf, nc, nd) = (view.num_faces as int, view.ncomp as int, view.num_dof_per_face as int);
    assert(nf * nd * nc == nf * nc * nd) by (nonlinear_arith);
    lemma_split3(l, nf, nc, nd);
    lemma_flat(view.face(l), nf, view.node(l), nd);
    lemma_flat(view.face(l), nf, 0, nd);
}

/// A parent element's slots lie inside the element table.
pub proof fn lemma_parent_slot(view: FaceView, elem_id: int, comp: int, elocal: int)
    requires
        view.valid(),
        0 <= elem_id < view.parents(),
        0 <= comp < view.ncomp,
        0 <= elocal < view.num_dof_per_elem,
    ensures
        0 <= elem_id * view.ncomp <= elem_id * view.ncomp * view.num_dof_per_elem,
        0 <= comp * view.num_dof_per_elem,
        elem_id * view.ncomp * view.num_dof_per_elem + comp * view.num_dof_per_elem + elocal
            < view.elem_offsets.len(),
{
    let (np, nc, nd) = (view.parents(), view.ncomp as int, view.num_dof_per_elem as int);
    lemma_flat3(elem_id, np, comp, nc, elocal, nd);
    assert((elem_id * nc + comp) * nd == elem_id * nc * nd + comp * nd) by (nonlinear_arith);
    assert(np * nc * nd == np * (nc * nd)) by (nonlinear_arith);
    assert(0 <= comp * nd) by (nonlinear_arith)
        requires
            0 <= comp,
            0 <= nd,
    ;
    assert(0 <= elem_id * nc) by (nonlinear_arith)
        requires
            0 <= elem_id,
            0 <= nc,
    ;
    assert(elem_id * nc <= elem_id * nc * nd) by (nonlinear_arith)
        requires
            0 <= elem_id * nc,
            1 <= nd,
    ;
}

impl<T: Real> ElemRestrictionTrait<T> for CpuFaceElemRestriction<T> {
    open spec fn wf(&self) -> bool {
        self@.valid()
    }

    open spec fn elements(&self) -> int {
        self@.num_faces as int
    }

    open spec fn nodes_per_elem(&self) -> int {
        self@.num_dof_per_face as int
    }

    open spec fn global_len(&self) -> int {
        self@.num_global_dof as int
    }

    open spec fn comps(&self) -> int {
        self@.ncomp as int
    }

    open spec fn refusal(&self, t_mode: TransposeMode, ulen: nat, vlen: nat) -> Option<
        (ErrorKind, Seq<char>),
    > {
        transfer_refusal(
            t_mode,
            ulen,
            vlen,
            self@.num_global_dof as int,
            self@.count(),
            match t_mode {
                TransposeMode::NoTranspose => stopping_fault(self@.source_faults(), self@.count()),
                TransposeMode::Transpose => stopping_fault(self@.sink_faults(), self@.count()),
            },
        )
    }

    open spec fn applied(&self, t_mode: TransposeMode, u: Seq<T>, v: Seq<T>) -> Seq<T> {
        match t_mode {
            TransposeMode::NoTranspose => if u.len() == self@.num_global_dof && v.len()
                == self@.count() {
                gathered(
                    self@.sources(),
                    first_fault(self@.source_faults(), 0, self@.count()),
                    u,
                    v,
                )
            } else {
                v
            },
            TransposeMode::Transpose => if u.len() == self@.count() && v.len()
                == self@.num_global_dof {
                scattered(self@.sinks(), first_fault(self@.sink_faults(), 0, self@.count()), u, v)
            } else {
                v
            },
        }
    }

    open spec fn gives_pattern(&self, r: ReedResult<CsrPattern>) -> bool {
        refused(r, ErrorKind::ElemRestriction, no_pattern_text())
    }

    fn assembled_csr_pattern(&self) -> (r: ReedResult<CsrPattern>) {
        Err(no_pattern())
    }

    fn num_elements(&self) -> (n: usize) {
        self.num_faces
    }

    fn num_dof_per_elem(&self) -> (n: usize) {
        self.num_dof_per_face
    }

    fn num_global_dof(&self) -> (n: usize) {
        self.num_global_dof
    }

    fn num_comp(&self) -> (n: usize) {
        self.ncomp
    }

    fn apply(&self, t_mode: TransposeMode, u: &[T], v: &mut [T]) -> (r: ReedResult<()>) {
        let local: usize = self.local_size();
        let global: usize = self.num_global_dof;
        match t_mode {
            TransposeMode::NoTranspose => {
                if u.len() != global {
                    return Err(length_error("input length ", u.len(), " != global size ", global));
                }
                if v.len() != local {
                    return Err(length_error("output length ", v.len(), " != local size ", local));
                }
                gather(&FaceSource { faces: self }, local, u, v)
            },
            TransposeMode::Transpose => {
                if u.len() != local {
                    return Err(length_error("input length ", u.len(), " != local size ", local));
                }
                if v.len() != global {
                    return Err(length_error("output length ", v.len(), " != global size ", global));
                }
                scatter(&FaceSink { faces: self }, local, u, v)
            },
        }
    }
}

impl<T: Real> Clone for CpuFaceElemRestriction<T> {
    fn clone(&self) -> (r: Self)
        ensures
            r@ == self@,
    {
        let mut face_to_elem: Vec<(usize, usize)> = Vec::new();
        for i in 0..self.face_to_elem.len()
            invariant
                face_to_elem@ == self.face_to_elem@.take(i as int),
        {
            face_to_elem.push(self.face_to_elem[i]);
            assert(face_to_elem@ =~= self.face_to_elem@.take(i + 1));
        }
        let r = CpuFaceElemRestriction {
            num_faces: self.num_faces,
            num_dof_per_face: self.num_dof_per_face,
            num_dof_per_elem: self.num_dof_per_elem,
            ncomp: self.ncomp,
            num_global_dof: self.num_global_dof,
            face_to_elem,
            face_offsets: self.face_offsets.clone(),
            elem_offsets: self.elem_offsets.clone(),
            face_to_elem_local: self.face_to_elem_local.clone(),
            marker: core::marker::PhantomData,
        };
        assert(r.face_to_elem@ =~= self.face_to_elem@);
        assert(r.face_offsets@ =~= self.face_offsets@);
        assert(r.elem_offsets@ =~= self.elem_offsets@);
        assert(r.face_to_elem_local@ =~= self.face_to_elem_local@);
        r
    }
}

impl<T: Real + 'static> BoxedClone<T> for CpuFaceElemRestriction<T> {
    fn boxed_clone(&self) -> (r: ReedResult<Box<dyn ElemRestrictionTrait<T>>>)
        ensures
            r is Ok,
    {
        Ok(Box::new(self.clone()))
    }
}

// ── laws ────────────────────────────────────────────────────────────────────

/// Where every face node reads the degree of freedom it is added to, the transposed application is
/// the adjoint of the forward one.
pub proof fn law_face_restriction_adjoint<T: Real>(
    r: CpuFaceElemRestriction<T>,
    u: Seq<T>,
    w: Seq<T>,
    v: Seq<T>,
    x: Seq<T>,
)
    requires
        exact_ring::<T>(),
        r.wf(),
        r.refusal(TransposeMode::NoTranspose, u.len(), x.len()) is None,
        r.refusal(TransposeMode::Transpose, w.len(), v.len()) is None,
        forall|l: int| 0 <= l < r@.count() ==> #[trigger] r@.source(l) == r@.sink(l),
    ensures
        inner(u, r.applied(TransposeMode::Transpose, w, v)) == inner(u, v).plus(
            inner(r.applied(TransposeMode::NoTranspose, u, x), w),
        ),
{
    let n = r@.count();
    lemma_first_fault_range(r@.source_faults(), 0, n);
    lemma_first_fault_range(r@.sink_faults(), 0, n);
    assert forall|l: int| 0 <= l < n implies 0 <= #[trigger] (r@.sinks())(l) < v.len() by {
        lemma_before_first_fault(r@.sink_faults(), 0, n, l);
        assert((r@.sink_faults())(l) is None);
    }
    lemma_scatter_adjoint(r@.sinks(), n, u, w, v, x);
    assert(gathered(r@.sinks(), n, u, x) =~= gathered(r@.sources(), n, u, x)) by {
        assert forall|l: int| 0 <= l < n implies (r@.sinks())(l) == #[trigger] (r@.sources())(l) by {
            assert(r@.source(l) == r@.sink(l));
        }
    }
}

} // verus!
