//! The walk over a whole table.
//!
//! The walk is a state machine over an offset into the buffer. In front of a
//! header it reads the header, which gives the formatted area. With the
//! formatted area known it decodes the string area behind it. With the
//! strings at hand it appends the structure, seen through its typed view, and
//! moves to the header behind the string area. The walk ends as done behind
//! an End-Of-Table structure, and as truncated in front of the first header
//! or string area that it cannot decode: it never skips ahead, since every
//! later offset would rest on the structure that failed.

use vstd::prelude::*;
use crate::error::DecodeError;
use crate::header::{parse_header, spec_parse_header, Header, END_OF_TABLE};
use crate::strings::{
    decode_string_area, lemma_end_marker, lemma_string_area_shift, spec_string_area,
};
use crate::structs::{dispatch, DefinedStruct};
use crate::structure::{Structure, StructView};

verus! {

/// The structure that `buf` holds at `offset`, and the offset at which the
/// next one starts: behind the formatted area and the string area.
pub open spec fn spec_structure_at(buf: Seq<u8>, offset: int) -> Result<
    (StructView, int),
    DecodeError,
> {
    match spec_parse_header(buf, offset) {
        Err(e) => Err(e),
        Ok(header) => match spec_string_area(buf, offset + header.length) {
            Err(e) => Err(e),
            Ok((strings, size)) => Ok(
                (
                    StructView {
                        header,
                        bytes: buf.subrange(offset, offset + header.length),
                        strings,
                    },
                    offset + header.length + size,
                ),
            ),
        },
    }
}

/// How a walk ended.
#[derive(Clone, Copy, Debug, PartialEq, Eq, Structural)]
pub enum WalkStatus {
    /// The walk reached an End-Of-Table structure.
    Done,
    /// The walk met a header or a string area that it could not decode, and
    /// stopped in front of it.
    Truncated(DecodeError),
}

/// What a decoded table is: the structures in the order of the walk, and how
/// the walk ended.
pub struct TableView {
    /// The structures found, in order.
    pub structures: Seq<StructView>,
    /// How the walk ended.
    pub status: WalkStatus,
}

/// The walk over `buf` that starts at a header at `offset`.
///
/// A structure that cannot be decoded ends the walk as truncated: the offset
/// of every later structure would rest on it. An End-Of-Table structure ends
/// the walk as done, whatever follows it in the buffer.
pub open spec fn spec_walk(buf: Seq<u8>, offset: int) -> TableView
    decreases buf.len() - offset,
    via spec_walk_decreases
{
    match spec_structure_at(buf, offset) {
        Err(e) => TableView { structures: Seq::empty(), status: WalkStatus::Truncated(e) },
        Ok((structure, next)) => if structure.header.structure_type == END_OF_TABLE {
            TableView { structures: seq![structure], status: WalkStatus::Done }
        } else {
            TableView {
                structures: seq![structure] + spec_walk(buf, next).structures,
                status: spec_walk(buf, next).status,
            }
        },
    }
}

#[via_fn]
proof fn spec_walk_decreases(buf: Seq<u8>, offset: int) {
    if spec_structure_at(buf, offset) is Ok {
        lemma_structure_at_advances(buf, offset);
    }
}

/// The offsets at which the walk from `offset` finds its structures, in
/// order.
pub open spec fn spec_walk_offsets(buf: Seq<u8>, offset: int) -> Seq<int>
    decreases buf.len() - offset,
    via spec_walk_offsets_decreases
{
    match spec_structure_at(buf, offset) {
        Err(_) => Seq::empty(),
        Ok((structure, next)) => if structure.header.structure_type == END_OF_TABLE {
            seq![offset]
        } else {
            seq![offset] + spec_walk_offsets(buf, next)
        },
    }
}

#[via_fn]
proof fn spec_walk_offsets_decreases(buf: Seq<u8>, offset: int) {
    if spec_structure_at(buf, offset) is Ok {
        lemma_structure_at_advances(buf, offset);
    }
}

/// The offset at which a walk stopped: behind its last structure, or where it
/// started if it found none.
pub open spec fn spec_walk_end(buf: Seq<u8>, offset: int) -> int {
    let offsets = spec_walk_offsets(buf, offset);
    if offsets.len() == 0 {
        offset
    } else {
        spec_structure_at(buf, offsets.last())->Ok_0.1
    }
}

/// A state of the walk over a buffer.
#[derive(Clone, Copy, Debug)]
pub enum WalkState<'a> {
    /// In front of the header at this offset. A walk starts here, at offset 0.
    AtHeader(usize),
    /// The header at this offset is read, and says where the formatted area
    /// ends.
    HaveFormattedArea(usize, Header),
    /// The string area is decoded and the structure is whole. The offset is
    /// that of the next header.
    HaveStrings(Structure<'a>, usize),
    /// Behind an End-Of-Table structure. The walk is over.
    Done,
    /// In front of a header or a string area that cannot be decoded. The walk
    /// is over.
    Truncated(DecodeError),
}

impl<'a> WalkState<'a> {
    /// Whether the walk is over in this state.
    pub open spec fn spec_is_terminal(&self) -> bool {
        *self is Done || *self is Truncated
    }

    /// Whether the walk is over in this state.
    #[verifier::when_used_as_spec(spec_is_terminal)]
    pub fn is_terminal(&self) -> (b: bool)
        ensures
            b == self.spec_is_terminal(),
    {
        match self {
            WalkState::Done => true,
            WalkState::Truncated(_) => true,
            _ => false,
        }
    }
}

/// Decodes the string area behind the formatted area that `header` declares
/// at `offset`, and puts the structure together.
fn decode_behind_header<'a>(buf: &'a [u8], offset: usize, header: Header) -> (r: Result<
    (Structure<'a>, usize),
    DecodeError,
>)
    ensures
        match spec_string_area(buf@, offset + header.length) {
            Ok((strings, size)) => r matches Ok((structure, next)) && structure@ == (StructView {
                header,
                bytes: buf@.subrange(offset as int, offset + header.length),
                strings,
            }) && next == offset + header.length + size,
            Err(e) => r == Err::<(Structure<'a>, usize), DecodeError>(e),
        },
{
    let length: usize = header.length as usize;
    if offset > buf.len() || length >= buf.len() - offset {
        return Err(DecodeError::TruncatedStrings);
    }
    let area_start: usize = offset + length;
    match decode_string_area(buf, area_start) {
        Ok((strings, size)) => {
            proof {
                lemma_end_marker(buf@, area_start as int);
            }
            Ok((Structure::new(header, &buf[offset..area_start], strings), area_start + size))
        },
        Err(e) => Err(e),
    }
}

/// Makes one transition of the walk, and returns the new state together with
/// the structure that the transition appends to the table, if it appends one.
///
/// In front of a header the header is read: a malformed one truncates the
/// walk. With the formatted area known the string area behind it is decoded:
/// a truncated one truncates the walk. With the strings at hand the
/// structure is dispatched to its typed view and appended; the walk is done
/// if it is the End-Of-Table marker, and else stands in front of the next
/// header. A walk that is over stays as it is.
pub fn step<'a>(buf: &'a [u8], state: WalkState<'a>) -> (r: (
    WalkState<'a>,
    Option<DefinedStruct<'a>>,
))
    ensures
        match state {
            WalkState::AtHeader(offset) => r.1 is None && r.0 == match spec_parse_header(
                buf@,
                offset as int,
            ) {
                Ok(header) => WalkState::HaveFormattedArea(offset, header),
                Err(e) => WalkState::Truncated(e),
            },
            WalkState::HaveFormattedArea(offset, header) => r.1 is None && match spec_string_area(
                buf@,
                offset + header.length,
            ) {
                Ok((strings, size)) => r.0 matches WalkState::HaveStrings(structure, next)
                    && structure@ == (StructView {
                    header,
                    bytes: buf@.subrange(offset as int, offset + header.length),
                    strings,
                }) && next == offset + header.length + size,
                Err(e) => r.0 == WalkState::Truncated(e),
            },
            WalkState::HaveStrings(structure, next) => r.1 matches Some(d) && d.spec_parts()
                == structure && d.well_typed() && r.0 == if structure@.header.structure_type
                == END_OF_TABLE {
                WalkState::Done
            } else {
                WalkState::AtHeader(next)
            },
            WalkState::Done => r.1 is None && r.0 == state,
            WalkState::Truncated(_) => r.1 is None && r.0 == state,
        },
{
    match state {
        WalkState::AtHeader(offset) => match parse_header(buf, offset) {
            Ok(header) => (WalkState::HaveFormattedArea(offset, header), None),
            Err(e) => (WalkState::Truncated(e), None),
        },
        WalkState::HaveFormattedArea(offset, header) => match decode_behind_header(
            buf,
            offset,
            header,
        ) {
            Ok((structure, next)) => (WalkState::HaveStrings(structure, next), None),
            Err(e) => (WalkState::Truncated(e), None),
        },
        WalkState::HaveStrings(structure, next) => {
            let view = dispatch(structure);
            if structure.header().is_end_of_table() {
                (WalkState::Done, Some(view))
            } else {
                (WalkState::AtHeader(next), Some(view))
            }
        },
        WalkState::Done => (state, None),
        WalkState::Truncated(_) => (state, None),
    }
}

/// Decodes the structure whose header starts at `offset`: the header, the
/// formatted area that it declares, and the string area behind it. Also
/// returns the offset at which the next structure starts.
pub fn decode_structure<'a>(buf: &'a [u8], offset: usize) -> (r: Result<
    (Structure<'a>, usize),
    DecodeError,
>)
    ensures
        match r {
            Ok((structure, next)) => spec_structure_at(buf@, offset as int) == Ok::<
                (StructView, int),
                DecodeError,
            >((structure@, next as int)),
            Err(e) => spec_structure_at(buf@, offset as int) == Err::<
                (StructView, int),
                DecodeError,
            >(e),
        },
{
    match parse_header(buf, offset) {
        Ok(header) => decode_behind_header(buf, offset, header),
        Err(e) => Err(e),
    }
}

/// The SMBIOS version that a table was produced under.
///
/// The decoder does not branch on it: a field that a later version added is
/// absent from a structure whose declared length ends before it.
#[derive(Clone, Copy, Debug, PartialEq, Eq, Structural)]
pub struct SMBiosVersion {
    /// Major version.
    pub major: u8,
    /// Minor version.
    pub minor: u8,
}

/// A bound on the transitions that a walk over a buffer of `len` bytes still
/// makes from `state`.
spec fn steps_left(state: WalkState<'_>, len: nat) -> int {
    match state {
        WalkState::AtHeader(offset) => 3 * (len - offset) + 3,
        WalkState::HaveFormattedArea(offset, _) => 3 * (len - offset) + 2,
        WalkState::HaveStrings(_, next) => 3 * (len - next) + 4,
        WalkState::Done => 0,
        WalkState::Truncated(_) => 0,
    }
}

/// The views of a run of typed structures.
pub open spec fn views<'a>(structures: Seq<DefinedStruct<'a>>) -> Seq<StructView> {
    Seq::new(structures.len(), |i: int| structures[i]@)
}

/// A decoded table: the typed structures in the order of the walk, borrowed
/// from the buffer, and how the walk ended.
#[derive(Debug)]
pub struct Table<'a> {
    version: SMBiosVersion,
    structures: Vec<DefinedStruct<'a>>,
    status: WalkStatus,
}

impl<'a> View for Table<'a> {
    type V = TableView;

    closed spec fn view(&self) -> TableView {
        TableView { structures: views(self.structures@), status: self.status }
    }
}

impl<'a> Table<'a> {
    /// Every structure is held through the view that belongs to its type.
    #[verifier::type_invariant]
    spec fn dispatched(&self) -> bool {
        forall|i: int|
            0 <= i < self.structures@.len() ==> (#[trigger] self.structures@[i]).well_typed()
    }

    /// The version given to `decode`.
    pub closed spec fn spec_version(&self) -> SMBiosVersion {
        self.version
    }

    /// Walks `buf` from its first byte and decodes every structure up to the
    /// End-Of-Table structure, or up to the first one that cannot be decoded.
    /// The structures decoded before that one are kept.
    pub fn decode(buf: &'a [u8], version: SMBiosVersion) -> (table: Self)
        ensures
            table@ == spec_walk(buf@, 0),
            table.spec_version() == version,
    {
        let mut structures: Vec<DefinedStruct<'a>> = Vec::new();
        let mut state = WalkState::AtHeader(0);
        let ghost mut at: int = 0;
        while !state.is_terminal()
            invariant
                0 <= at <= buf.len(),
                forall|i: int|
                    0 <= i < structures@.len() ==> (#[trigger] structures@[i]).well_typed(),
                match state {
                    WalkState::AtHeader(offset) => offset == at,
                    WalkState::HaveFormattedArea(offset, header) => offset == at
                        && spec_parse_header(buf@, at) == Ok::<Header, DecodeError>(header),
                    WalkState::HaveStrings(structure, next) => spec_structure_at(buf@, at) == Ok::<
                        (StructView, int),
                        DecodeError,
                    >((structure@, next as int)),
                    WalkState::Done => spec_walk(buf@, 0) == (TableView {
                        structures: views(structures@),
                        status: WalkStatus::Done,
                    }),
                    WalkState::Truncated(e) => spec_walk(buf@, 0) == (TableView {
                        structures: views(structures@),
                        status: WalkStatus::Truncated(e),
                    }),
                },
                !state.is_terminal() ==> spec_walk(buf@, 0).structures == views(structures@)
                    + spec_walk(buf@, at).structures,
                !state.is_terminal() ==> spec_walk(buf@, 0).status == spec_walk(buf@, at).status,
            decreases steps_left(state, buf@.len()),
        {
            let ghost before = views(structures@);
            proof {
                if spec_structure_at(buf@, at) is Ok {
                    lemma_structure_at_advances(buf@, at);
                }
                assert(before + Seq::<StructView>::empty() =~= before);
            }
            let (next_state, appended) = step(buf, state);
            match appended {
                Some(view) => {
                    structures.push(view);
                    proof {
                        let structure = view@;
                        let next = spec_structure_at(buf@, at)->Ok_0.1;
                        assert(views(structures@) =~= before + seq![structure]);
                        assert(before + (seq![structure] + spec_walk(buf@, next).structures)
                            =~= views(structures@) + spec_walk(buf@, next).structures);
                        if !next_state.is_terminal() {
                            at = next;
                        }
                    }
                },
                None => {},
            }
            state = next_state;
        }
        let status = match state {
            WalkState::Truncated(e) => WalkStatus::Truncated(e),
            _ => WalkStatus::Done,
        };
        Table { version, structures, status }
    }

    /// The version that the table was produced under.
    pub fn version(&self) -> (v: SMBiosVersion)
        ensures
            v == self.spec_version(),
    {
        self.version
    }

    /// How the walk ended.
    pub fn status(&self) -> (s: WalkStatus)
        ensures
            s == self@.status,
    {
        self.status
    }

    /// Whether the walk reached an End-Of-Table structure.
    pub fn is_done(&self) -> (b: bool)
        ensures
            b == (self@.status == WalkStatus::Done),
    {
        match self.status {
            WalkStatus::Done => true,
            WalkStatus::Truncated(_) => false,
        }
    }

    /// Number of structures decoded.
    pub fn len(&self) -> (n: usize)
        ensures
            n == self@.structures.len(),
    {
        self.structures.len()
    }

    /// The structure at position `index` of the walk, through its typed view.
    pub fn get(&self, index: usize) -> (r: Option<&DefinedStruct<'a>>)
        ensures
            index >= self@.structures.len() ==> r is None,
            index < self@.structures.len() ==> r is Some && r->0@ == self@.structures[index as int]
                && r->0.well_typed(),
    {
        proof {
            use_type_invariant(self);
        }
        if index < self.structures.len() {
            Some(&self.structures[index])
        } else {
            None
        }
    }
}

/// A structure takes up at least five bytes, and ends within the buffer.
pub proof fn lemma_structure_at_advances(buf: Seq<u8>, offset: int)
    requires
        spec_structure_at(buf, offset) is Ok,
    ensures
        0 <= offset,
        offset + 5 <= spec_structure_at(buf, offset)->Ok_0.1 <= buf.len(),
        spec_structure_at(buf, offset)->Ok_0.0.wf(),
{
    let header = spec_parse_header(buf, offset)->Ok_0;
    lemma_end_marker(buf, offset + header.length);
}

/// A structure is decoded from its own bytes and those behind it: bytes put
/// in front of the buffer move the offsets and change nothing else.
pub proof fn lemma_structure_at_shift(prefix: Seq<u8>, tail: Seq<u8>, offset: int)
    requires
        0 <= offset,
    ensures
        spec_structure_at(prefix + tail, prefix.len() + offset) == match spec_structure_at(
            tail,
            offset,
        ) {
            Ok((structure, next)) => Ok((structure, prefix.len() + next)),
            Err(e) => Err(e),
        },
{
    let buf = prefix + tail;
    let p = prefix.len() as int;
    if offset + 4 <= tail.len() {
        assert(buf[p + offset] == tail[offset]);
        assert(buf[p + offset + 1] == tail[offset + 1]);
        assert(buf[p + offset + 2] == tail[offset + 2]);
        assert(buf[p + offset + 3] == tail[offset + 3]);
        let length = tail[offset + 1] as int;
        lemma_string_area_shift(prefix, tail, offset + length);
        if spec_structure_at(tail, offset) is Ok {
            lemma_structure_at_advances(tail, offset);
            assert(buf.subrange(p + offset, p + offset + length) =~= tail.subrange(
                offset,
                offset + length,
            ));
        }
    }
}

/// What holds of every walk.
///
/// Each structure is the one that the buffer holds at its offset; it is well
/// formed and lies within the buffer, and the next one starts right behind
/// its string area. Only the last structure can be the End-Of-Table marker.
/// The walk is done exactly if it is, and else it is truncated with the error
/// met where the walk stopped.
pub proof fn lemma_walk_structures(buf: Seq<u8>, offset: int)
    ensures
        spec_walk_offsets(buf, offset).len() == spec_walk(buf, offset).structures.len(),
        forall|i: int|
            0 <= i < spec_walk_offsets(buf, offset).len() ==> {
                let at = #[trigger] spec_walk_offsets(buf, offset)[i];
                let structure = spec_walk(buf, offset).structures[i];
                &&& spec_structure_at(buf, at) is Ok
                &&& spec_structure_at(buf, at)->Ok_0.0 == structure
                &&& structure.wf()
                &&& 0 <= at
                &&& at + structure.header.length < buf.len()
                &&& structure.bytes == buf.subrange(at, at + structure.header.length)
                &&& at == if i == 0 {
                    offset
                } else {
                    spec_structure_at(buf, spec_walk_offsets(buf, offset)[i - 1])->Ok_0.1
                }
                &&& i + 1 < spec_walk_offsets(buf, offset).len()
                    ==> structure.header.structure_type != END_OF_TABLE
            },
        spec_walk(buf, offset).status == WalkStatus::Done <==> spec_walk(
            buf,
            offset,
        ).structures.len() > 0 && spec_walk(buf, offset).structures.last().header.structure_type
            == END_OF_TABLE,
        spec_walk(buf, offset).status matches WalkStatus::Truncated(e) ==> spec_structure_at(
            buf,
            spec_walk_end(buf, offset),
        ) == Err::<(StructView, int), DecodeError>(e),
    decreases buf.len() - offset,
{
    match spec_structure_at(buf, offset) {
        Err(_) => {},
        Ok((structure, next)) => {
            lemma_structure_at_advances(buf, offset);
            if structure.header.structure_type != END_OF_TABLE {
                lemma_walk_structures(buf, next);
                let offsets = spec_walk_offsets(buf, offset);
                let rest_offsets = spec_walk_offsets(buf, next);
                let table = spec_walk(buf, offset);
                let rest = spec_walk(buf, next);
                assert forall|i: int| 0 <= i < offsets.len() implies {
                    let at = #[trigger] offsets[i];
                    let structure = table.structures[i];
                    &&& spec_structure_at(buf, at) is Ok
                    &&& spec_structure_at(buf, at)->Ok_0.0 == structure
                    &&& structure.wf()
                    &&& 0 <= at
                    &&& at + structure.header.length < buf.len()
                    &&& structure.bytes == buf.subrange(at, at + structure.header.length)
                    &&& at == if i == 0 {
                        offset
                    } else {
                        spec_structure_at(buf, offsets[i - 1])->Ok_0.1
                    }
                    &&& i + 1 < offsets.len() ==> structure.header.structure_type != END_OF_TABLE
                } by {
                    if i > 0 {
                        assert(offsets[i] == rest_offsets[i - 1]);
                        assert(table.structures[i] == rest.structures[i - 1]);
                        if i > 1 {
                            assert(offsets[i - 1] == rest_offsets[i - 2]);
                        }
                    }
                }
                if rest_offsets.len() > 0 {
                    assert(offsets.last() == rest_offsets.last());
                    assert(table.structures.last() == rest.structures.last());
                }
            }
        },
    }
}

/// A walk depends on nothing in front of the header it starts at.
pub proof fn lemma_walk_ignores_prefix(prefix: Seq<u8>, tail: Seq<u8>, offset: int)
    requires
        0 <= offset,
    ensures
        spec_walk(prefix + tail, prefix.len() + offset) == spec_walk(tail, offset),
    decreases tail.len() - offset,
{
    lemma_structure_at_shift(prefix, tail, offset);
    match spec_structure_at(tail, offset) {
        Err(_) => {},
        Ok((structure, next)) => {
            lemma_structure_at_advances(tail, offset);
            if structure.header.structure_type != END_OF_TABLE {
                lemma_walk_ignores_prefix(prefix, tail, next);
            }
        },
    }
}

} // verus!
