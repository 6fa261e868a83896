//! The canonical byte form of structures and tables, and what decoding makes
//! of it.

use vstd::prelude::*;
use crate::error::DecodeError;
use crate::header::{spec_parse_header, Header, END_OF_TABLE};
use crate::strings::{
    lemma_end_marker_is, lemma_run_end, lemma_run_end_is, lemma_split_runs_shift,
    lemma_string_area_shift, latin1, spec_string_area, split_runs,
};
use crate::structure::StructView;
use crate::table::{
    lemma_walk_ignores_prefix, spec_structure_at, spec_walk, TableView, WalkStatus,
};

verus! {

/// The four bytes of a header: type, length, and the handle in little-endian
/// order.
pub open spec fn header_bytes(header: Header) -> Seq<u8> {
    seq![
        header.structure_type,
        header.length,
        (header.handle % 256) as u8,
        (header.handle / 256) as u8,
    ]
}

/// Whether `s` can stand in a string area as one string: it is not empty and
/// holds no NUL.
pub open spec fn is_text(s: Seq<u8>) -> bool {
    s.len() > 0 && forall|i: int| 0 <= i < s.len() ==> s[i] != 0
}

/// Whether every string can stand in a string area.
pub open spec fn all_text(strings: Seq<Seq<u8>>) -> bool {
    forall|i: int| 0 <= i < strings.len() ==> is_text(#[trigger] strings[i])
}

/// The strings one after the other, each closed by a NUL.
pub open spec fn join_strings(strings: Seq<Seq<u8>>) -> Seq<u8>
    decreases strings.len(),
{
    if strings.len() == 0 {
        Seq::empty()
    } else {
        strings[0] + seq![0u8] + join_strings(strings.skip(1))
    }
}

/// The canonical string area: every string closed by a NUL, and one more NUL
/// behind the last; two NUL bytes where there is no string.
pub open spec fn string_area_bytes(strings: Seq<Seq<u8>>) -> Seq<u8> {
    if strings.len() == 0 {
        seq![0u8, 0u8]
    } else {
        join_strings(strings) + seq![0u8]
    }
}

/// The canonical encoding of a structure: header, the fields of the
/// formatted area behind the header, and the string area.
pub open spec fn encode_structure(header: Header, fields: Seq<u8>, strings: Seq<Seq<u8>>) -> Seq<
    u8,
> {
    header_bytes(header) + fields + string_area_bytes(strings)
}

/// The structure that `encode_structure` encodes.
pub open spec fn structure_of(header: Header, fields: Seq<u8>, strings: Seq<Seq<u8>>)
    -> StructView {
    StructView { header, bytes: header_bytes(header) + fields, strings }
}

/// Joined strings start with a byte that is not NUL, end with a NUL, and hold
/// no two NUL bytes in a row.
proof fn lemma_join_shape(strings: Seq<Seq<u8>>)
    requires
        all_text(strings),
        strings.len() > 0,
    ensures
        join_strings(strings).len() >= 2,
        join_strings(strings)[0] != 0,
        join_strings(strings).last() == 0,
        forall|i: int|
            0 <= i && i + 1 < join_strings(strings).len() ==> !(join_strings(strings)[i] == 0
                && #[trigger] join_strings(strings)[i + 1] == 0),
    decreases strings.len(),
{
    let first = strings[0];
    let rest = strings.skip(1);
    let joined = join_strings(strings);
    let joined_rest = join_strings(rest);
    assert(is_text(first));
    assert(joined == first + seq![0u8] + joined_rest);
    if rest.len() > 0 {
        assert forall|i: int| 0 <= i < rest.len() implies is_text(#[trigger] rest[i]) by {
            assert(rest[i] == strings[i + 1]);
        }
        lemma_join_shape(rest);
    }
    assert forall|i: int| 0 <= i && i + 1 < joined.len() implies !(joined[i] == 0
        && #[trigger] joined[i + 1] == 0) by {
        if i < first.len() {
            assert(joined[i] == first[i]);
        } else if i == first.len() {
            assert(joined[i + 1] == joined_rest[0]);
        } else {
            assert(joined[i] == joined_rest[i - first.len() - 1]);
            assert(joined[i + 1] == joined_rest[i - first.len() - 1 + 1]);
        }
    }
    assert(joined[0] == first[0]);
}

/// Cutting joined strings at every NUL gives the strings back.
proof fn lemma_split_join(strings: Seq<Seq<u8>>)
    requires
        all_text(strings),
        strings.len() > 0,
    ensures
        split_runs(join_strings(strings).drop_last(), 0) == strings,
    decreases strings.len(),
{
    let first = strings[0];
    let rest = strings.skip(1);
    let joined_rest = join_strings(rest);
    let content = join_strings(strings).drop_last();
    assert(is_text(first));
    if rest.len() == 0 {
        assert(joined_rest =~= Seq::<u8>::empty());
        assert(content =~= first);
        lemma_run_end_is(content, 0, first.len() as int);
        assert(content.subrange(0, first.len() as int) =~= first);
        assert(split_runs(content, first.len() as int + 1) =~= Seq::<Seq<u8>>::empty());
        assert(split_runs(content, 0) =~= strings);
    } else {
        assert forall|i: int| 0 <= i < rest.len() implies is_text(#[trigger] rest[i]) by {
            assert(rest[i] == strings[i + 1]);
        }
        lemma_join_shape(rest);
        lemma_split_join(rest);
        let prefix = first + seq![0u8];
        let content_rest = joined_rest.drop_last();
        assert(content =~= prefix + content_rest);
        assert forall|i: int| 0 <= i < first.len() implies content[i] != 0 by {
            assert(content[i] == first[i]);
        }
        lemma_run_end_is(content, 0, first.len() as int);
        assert(content.subrange(0, first.len() as int) =~= first);
        lemma_split_runs_shift(prefix, content_rest, 0);
        assert(split_runs(content, 0) =~= seq![first] + rest);
        assert(seq![first] + rest =~= strings);
    }
}

/// Decoding a canonical string area gives its strings back and takes up
/// exactly its bytes, whatever follows it.
pub proof fn lemma_string_area_roundtrip(strings: Seq<Seq<u8>>, rest: Seq<u8>)
    requires
        all_text(strings),
    ensures
        spec_string_area(string_area_bytes(strings) + rest, 0) == Ok::<
            (Seq<Seq<u8>>, int),
            DecodeError,
        >((strings, string_area_bytes(strings).len() as int)),
{
    let buf = string_area_bytes(strings) + rest;
    if strings.len() == 0 {
        assert(buf[0] == 0 && buf[1] == 0);
        assert(buf.subrange(0, 0) =~= Seq::<u8>::empty());
        assert(split_runs(Seq::<u8>::empty(), 0) =~= strings);
    } else {
        let joined = join_strings(strings);
        lemma_join_shape(strings);
        lemma_split_join(strings);
        let at = joined.len() - 1;
        assert(buf[at] == joined[at]);
        assert(buf[at + 1] == 0);
        assert forall|i: int| 0 <= i < at implies !(buf[i] == 0 && #[trigger] buf[i + 1] == 0) by {
            assert(buf[i] == joined[i]);
            assert(buf[i + 1] == joined[i + 1]);
        }
        lemma_end_marker_is(buf, 0, at);
        lemma_run_end(buf, 0);
        assert(buf.subrange(0, at) =~= joined.drop_last());
    }
}

/// Decoding the canonical encoding of a structure gives the structure back:
/// its header, its formatted area and its strings, and by that every field
/// value. The next structure starts right behind the encoding, whatever
/// follows it.
pub proof fn lemma_structure_roundtrip(
    header: Header,
    fields: Seq<u8>,
    strings: Seq<Seq<u8>>,
    rest: Seq<u8>,
)
    requires
        header.length == 4 + fields.len(),
        all_text(strings),
    ensures
        spec_structure_at(encode_structure(header, fields, strings) + rest, 0) == Ok::<
            (StructView, int),
            DecodeError,
        >(
            (
                structure_of(header, fields, strings),
                encode_structure(header, fields, strings).len() as int,
            ),
        ),
        structure_of(header, fields, strings).wf(),
        forall|i: int|
            0 <= i < fields.len() ==> structure_of(header, fields, strings).field_byte(4 + i)
                == Some(#[trigger] fields[i]),
        forall|index: int|
            1 <= index <= strings.len() ==> #[trigger] structure_of(header, fields, strings).string(
                index,
            ) == Some(latin1(strings[index - 1])),
{
    let formatted = header_bytes(header) + fields;
    let area = string_area_bytes(strings) + rest;
    let buf = encode_structure(header, fields, strings) + rest;
    assert(buf =~= formatted + area);
    assert(buf[0] == header.structure_type);
    assert(buf[1] == header.length);
    assert(buf[2] == (header.handle % 256) as u8);
    assert(buf[3] == (header.handle / 256) as u8);
    assert(spec_parse_header(buf, 0) == Ok::<Header, DecodeError>(header));
    lemma_string_area_shift(formatted, area, 0);
    lemma_string_area_roundtrip(strings, rest);
    assert(buf.subrange(0, header.length as int) =~= formatted);
    assert forall|i: int| 0 <= i < fields.len() implies structure_of(
        header,
        fields,
        strings,
    ).field_byte(4 + i) == Some(#[trigger] fields[i]) by {
        assert(formatted.subrange(4 + i, 4 + i + 1)[0] == fields[i]);
    }
}

/// Whether a structure has a canonical encoding: its formatted area starts
/// with its header and is as long as the header says, and every string can
/// stand in a string area.
pub open spec fn canonical(structure: StructView) -> bool {
    structure.wf() && all_text(structure.strings)
}

/// The canonical encoding of a structure that is given by its view.
pub open spec fn encode(structure: StructView) -> Seq<u8> {
    encode_structure(structure.header, structure.bytes.skip(4), structure.strings)
}

/// The canonical encodings of the structures, one after the other.
pub open spec fn encode_table(structures: Seq<StructView>) -> Seq<u8>
    decreases structures.len(),
{
    if structures.len() == 0 {
        Seq::empty()
    } else {
        encode(structures[0]) + encode_table(structures.skip(1))
    }
}

/// Whether every structure is canonical and none is the End-Of-Table marker.
pub open spec fn all_canonical_inner(structures: Seq<StructView>) -> bool {
    forall|i: int|
        0 <= i < structures.len() ==> canonical(#[trigger] structures[i])
            && structures[i].header.structure_type != END_OF_TABLE
}

/// A walk that starts at the canonical encoding of a structure decodes that
/// structure; it ends there if the structure is the End-Of-Table marker, and
/// goes on with what follows the encoding if it is not.
pub proof fn lemma_walk_encoded_structure(structure: StructView, rest: Seq<u8>)
    requires
        canonical(structure),
    ensures
        spec_walk(encode(structure) + rest, 0) == if structure.header.structure_type
            == END_OF_TABLE {
            TableView { structures: seq![structure], status: WalkStatus::Done }
        } else {
            TableView {
                structures: seq![structure] + spec_walk(rest, 0).structures,
                status: spec_walk(rest, 0).status,
            }
        },
{
    let fields = structure.bytes.skip(4);
    lemma_structure_roundtrip(structure.header, fields, structure.strings, rest);
    assert(header_bytes(structure.header) + fields =~= structure.bytes);
    lemma_walk_ignores_prefix(encode(structure), rest, 0);
}

/// A walk over the canonical encodings of structures, none of them the
/// End-Of-Table marker, decodes every one of them in order and goes on with
/// what follows the last encoding.
pub proof fn lemma_walk_encoded_table(structures: Seq<StructView>, rest: Seq<u8>)
    requires
        all_canonical_inner(structures),
    ensures
        spec_walk(encode_table(structures) + rest, 0) == (TableView {
            structures: structures + spec_walk(rest, 0).structures,
            status: spec_walk(rest, 0).status,
        }),
    decreases structures.len(),
{
    if structures.len() == 0 {
        assert(encode_table(structures) + rest =~= rest);
        assert(structures + spec_walk(rest, 0).structures =~= spec_walk(rest, 0).structures);
    } else {
        let first = structures[0];
        let others = structures.skip(1);
        let behind = encode_table(others) + rest;
        assert forall|i: int| 0 <= i < others.len() implies canonical(#[trigger] others[i])
            && others[i].header.structure_type != END_OF_TABLE by {
            assert(others[i] == structures[i + 1]);
        }
        lemma_walk_encoded_table(others, rest);
        lemma_walk_encoded_structure(first, behind);
        assert(encode_table(structures) + rest =~= encode(first) + behind);
        assert(seq![first] + (others + spec_walk(rest, 0).structures) =~= structures + spec_walk(
            rest,
            0,
        ).structures);
    }
}

/// A buffer made of canonical encodings that ends with an End-Of-Table
/// structure decodes to all of its structures, the marker last, and the walk
/// is done. Bytes behind the marker change nothing.
pub proof fn lemma_walk_done(
    structures: Seq<StructView>,
    marker: StructView,
    trailing: Seq<u8>,
)
    requires
        all_canonical_inner(structures),
        canonical(marker),
        marker.header.structure_type == END_OF_TABLE,
    ensures
        spec_walk(encode_table(structures) + encode(marker) + trailing, 0) == (TableView {
            structures: structures.push(marker),
            status: WalkStatus::Done,
        }),
{
    lemma_walk_encoded_structure(marker, trailing);
    lemma_walk_encoded_table(structures, encode(marker) + trailing);
    assert(encode_table(structures) + encode(marker) + trailing =~= encode_table(structures) + (
    encode(marker) + trailing));
    assert(structures + seq![marker] =~= structures.push(marker));
}

/// A header that declares more bytes than the buffer holds behind it leaves
/// no room for a string area: the structure is truncated.
pub proof fn lemma_overlong_structure(buf: Seq<u8>, offset: int)
    requires
        spec_parse_header(buf, offset) is Ok,
        offset + spec_parse_header(buf, offset)->Ok_0.length >= buf.len(),
    ensures
        spec_structure_at(buf, offset) == Err::<(StructView, int), DecodeError>(
            DecodeError::TruncatedStrings,
        ),
{
}

/// A buffer made of canonical encodings and then something that cannot be
/// decoded gives every structure in front of that point, and the walk is
/// truncated with the error met there.
pub proof fn lemma_walk_truncated(structures: Seq<StructView>, rest: Seq<u8>)
    requires
        all_canonical_inner(structures),
        spec_structure_at(rest, 0) is Err,
    ensures
        spec_walk(encode_table(structures) + rest, 0) == (TableView {
            structures,
            status: WalkStatus::Truncated(spec_structure_at(rest, 0)->Err_0),
        }),
{
    lemma_walk_encoded_table(structures, rest);
    assert(structures + Seq::<StructView>::empty() =~= structures);
}

} // verus!
