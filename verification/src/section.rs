//! Sections: the tagged, length-prefixed top-level units of a module.

use vstd::prelude::*;

use crate::code::{bodies_result_view, bodies_view, parse_code_section, spec_bodies};
use crate::error::DecodeError;

verus! {

/// Mathematical model of a section: its payload as a byte sequence,
/// tagged by kind.  The code section instead holds the outcome of
/// framing its payload into function bodies.
pub enum SectionModel {
    Custom(Seq<u8>),
    Type(Seq<u8>),
    Import(Seq<u8>),
    Function(Seq<u8>),
    Table(Seq<u8>),
    Memory(Seq<u8>),
    Global(Seq<u8>),
    Export(Seq<u8>),
    Start(Seq<u8>),
    Element(Seq<u8>),
    Code(Result<Seq<Seq<u8>>, DecodeError>),
    Data(Seq<u8>),
    Unknown(u8, Seq<u8>),
}

/// One decoded section.  Every payload byte is copied verbatim out of
/// the input buffer.  A malformed code section is recorded as
/// `Code(Err(..))` rather than failing the whole module.  `Unknown`
/// keeps the original id next to its payload.
#[derive(Debug)]
pub enum Section {
    Custom(Vec<u8>),
    Type(Vec<u8>),
    Import(Vec<u8>),
    Function(Vec<u8>),
    Table(Vec<u8>),
    Memory(Vec<u8>),
    Global(Vec<u8>),
    Export(Vec<u8>),
    Start(Vec<u8>),
    Element(Vec<u8>),
    Code(Result<Vec<Vec<u8>>, DecodeError>),
    Data(Vec<u8>),
    Unknown(u8, Vec<u8>),
}

impl View for Section {
    type V = SectionModel;

    open spec fn view(&self) -> SectionModel {
        match self {
            Section::Custom(p) => SectionModel::Custom(p@),
            Section::Type(p) => SectionModel::Type(p@),
            Section::Import(p) => SectionModel::Import(p@),
            Section::Function(p) => SectionModel::Function(p@),
            Section::Table(p) => SectionModel::Table(p@),
            Section::Memory(p) => SectionModel::Memory(p@),
            Section::Global(p) => SectionModel::Global(p@),
            Section::Export(p) => SectionModel::Export(p@),
            Section::Start(p) => SectionModel::Start(p@),
            Section::Element(p) => SectionModel::Element(p@),
            Section::Code(r) => SectionModel::Code(bodies_result_view(*r)),
            Section::Data(p) => SectionModel::Data(p@),
            Section::Unknown(id, p) => SectionModel::Unknown(*id, p@),
        }
    }
}

/// The kind a (id, payload) pair decodes to.  Ids 0 through 11 map to
/// the twelve standard kinds; id 10 frames its payload into function
/// bodies; every other id is carried through as `Unknown`.
pub open spec fn spec_classify(id: u8, payload: Seq<u8>) -> SectionModel {
    if id == 0 {
        SectionModel::Custom(payload)
    } else if id == 1 {
        SectionModel::Type(payload)
    } else if id == 2 {
        SectionModel::Import(payload)
    } else if id == 3 {
        SectionModel::Function(payload)
    } else if id == 4 {
        SectionModel::Table(payload)
    } else if id == 5 {
        SectionModel::Memory(payload)
    } else if id == 6 {
        SectionModel::Global(payload)
    } else if id == 7 {
        SectionModel::Export(payload)
    } else if id == 8 {
        SectionModel::Start(payload)
    } else if id == 9 {
        SectionModel::Element(payload)
    } else if id == 10 {
        SectionModel::Code(spec_bodies(payload))
    } else if id == 11 {
        SectionModel::Data(payload)
    } else {
        SectionModel::Unknown(id, payload)
    }
}

/// An id outside the standard range is not an error: its payload is
/// passed through unchanged under `Unknown`.
pub proof fn lemma_unknown_id(id: u8, payload: Seq<u8>)
    requires
        id > 11,
    ensures
        spec_classify(id, payload) == SectionModel::Unknown(id, payload),
{
}

impl Section {
    /// Tags a raw section.  For the code section (id 10) the payload is
    /// framed into function bodies, with a decode failure captured in
    /// the variant instead of aborting the module parse.
    pub fn classify(id: u8, payload: Vec<u8>) -> (r: Section)
        ensures
            r@ == spec_classify(id, payload@),
    {
        match id {
            0 => Section::Custom(payload),
            1 => Section::Type(payload),
            2 => Section::Import(payload),
            3 => Section::Function(payload),
            4 => Section::Table(payload),
            5 => Section::Memory(payload),
            6 => Section::Global(payload),
            7 => Section::Export(payload),
            8 => Section::Start(payload),
            9 => Section::Element(payload),
            10 => Section::Code(parse_code_section(payload.as_slice())),
            11 => Section::Data(payload),
            _ => Section::Unknown(id, payload),
        }
    }
}

/// The models of a run of decoded sections, in order.
pub open spec fn sections_view(v: Seq<Section>) -> Seq<SectionModel> {
    v.map_values(|s: Section| s@)
}

/// Whether two byte vectors hold the same bytes.
pub fn bytes_eq(a: &Vec<u8>, b: &Vec<u8>) -> (r: bool)
    ensures
        r == (a@ == b@),
{
    if a.len() != b.len() {
        return false;
    }
    let mut i: usize = 0;
    while i < a.len()
        invariant
            i <= a.len(),
            a@.len() == b@.len(),
            forall|j: int| 0 <= j < i ==> a@[j] == b@[j],
        decreases a@.len() - i,
    {
        if a[i] != b[i] {
            return false;
        }
        i = i + 1;
    }
    proof {
        assert(a@ =~= b@);
    }
    true
}

/// Whether two body lists hold the same byte sequences in the same
/// order.
pub fn bodies_eq(a: &Vec<Vec<u8>>, b: &Vec<Vec<u8>>) -> (r: bool)
    ensures
        r == (bodies_view(a@) == bodies_view(b@)),
{
    if a.len() != b.len() {
        proof {
            assert(bodies_view(a@).len() != bodies_view(b@).len());
        }
        return false;
    }
    let mut i: usize = 0;
    while i < a.len()
        invariant
            i <= a.len(),
            a@.len() == b@.len(),
            forall|j: int| 0 <= j < i ==> a@[j]@ == b@[j]@,
        decreases a@.len() - i,
    {
        if !bytes_eq(&a[i], &b[i]) {
            proof {
                assert(bodies_view(a@)[i as int] != bodies_view(b@)[i as int]);
            }
            return false;
        }
        i = i + 1;
    }
    proof {
        assert(bodies_view(a@) =~= bodies_view(b@));
    }
    true
}

/// Whether two sections are structurally identical: same kind, same
/// payload bytes, and for code sections the same bodies or the same
/// error.
pub fn section_eq(a: &Section, b: &Section) -> (r: bool)
    ensures
        r == (a@ == b@),
{
    match (a, b) {
        (Section::Custom(x), Section::Custom(y)) => bytes_eq(x, y),
        (Section::Type(x), Section::Type(y)) => bytes_eq(x, y),
        (Section::Import(x), Section::Import(y)) => bytes_eq(x, y),
        (Section::Function(x), Section::Function(y)) => bytes_eq(x, y),
        (Section::Table(x), Section::Table(y)) => bytes_eq(x, y),
        (Section::Memory(x), Section::Memory(y)) => bytes_eq(x, y),
        (Section::Global(x), Section::Global(y)) => bytes_eq(x, y),
        (Section::Export(x), Section::Export(y)) => bytes_eq(x, y),
        (Section::Start(x), Section::Start(y)) => bytes_eq(x, y),
        (Section::Element(x), Section::Element(y)) => bytes_eq(x, y),
        (Section::Data(x), Section::Data(y)) => bytes_eq(x, y),
        (Section::Code(x), Section::Code(y)) => match (x, y) {
            (Ok(bx), Ok(by)) => bodies_eq(bx, by),
            (Err(ex), Err(ey)) => *ex == *ey,
            _ => false,
        },
        (Section::Unknown(idx, x), Section::Unknown(idy, y)) => *idx == *idy && bytes_eq(x, y),
        _ => false,
    }
}

/// Whether two decoded section lists are structurally identical.
pub fn module_eq(a: &Vec<Section>, b: &Vec<Section>) -> (r: bool)
    ensures
        r == (sections_view(a@) == sections_view(b@)),
{
    if a.len() != b.len() {
        proof {
            assert(sections_view(a@).len() != sections_view(b@).len());
        }
        return false;
    }
    let mut i: usize = 0;
    while i < a.len()
        invariant
            i <= a.len(),
            a@.len() == b@.len(),
            forall|j: int| 0 <= j < i ==> a@[j]@ == b@[j]@,
        decreases a@.len() - i,
    {
        if !section_eq(&a[i], &b[i]) {
            proof {
                assert(sections_view(a@)[i as int] != sections_view(b@)[i as int]);
            }
            return false;
        }
        i = i + 1;
    }
    proof {
        assert(sections_view(a@) =~= sections_view(b@));
    }
    true
}

} // verus!
