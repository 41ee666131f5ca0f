//! Decoder: exec parsing functions, each proved equal to a spec-level mirror
//! of itself. Header errors are fatal; malformed trailing sections or node
//! lists are not errors — those loops stop and keep what was decoded so far.

use vstd::bytes::{
    spec_u32_from_le_bytes, spec_u64_from_le_bytes, u32_from_le_bytes, u64_from_le_bytes,
};
use vstd::prelude::*;
use vstd::slice::{slice_subrange, slice_to_vec};

use crate::model::{
    DocV, NodeV, SectionV, MAGIC, TAG_END, TAG_INT, TAG_SIMPLE, TAG_STR,
};
use crate::vdf::{
    lemma_nodes_view_push, lemma_sections_view_push, lemma_view_simple, nodes_view, sections_view,
    VDFAppNode, VDFAppSection, VDFHeader, VDF,
};

verus! {

/// Why a decode step failed. Only `BadMagic` and `Truncated` can escape a
/// whole-document decode: the section and node-list loops swallow every
/// failure of an element and stop instead.
#[derive(Debug, Clone, Copy, PartialEq, Eq, Structural)]
pub enum ParseError {
    /// The first four bytes of the document differ from the magic constant.
    BadMagic,
    /// Fewer bytes remain than a fixed field or a declared length requires.
    Truncated,
    /// A string reached the end of the buffer without a null terminator.
    UnterminatedString,
    /// A node opened with a tag byte that names no node kind.
    UnknownTag,
}

/// Mirror of `parse_u32le`: four little-endian bytes at `pos`.
pub open spec fn spec_parse_u32(input: Seq<u8>, pos: int) -> Result<(u32, int), ParseError> {
    if 0 <= pos && pos + 4 <= input.len() {
        Ok((spec_u32_from_le_bytes(input.subrange(pos, pos + 4)), pos + 4))
    } else {
        Err(ParseError::Truncated)
    }
}

/// Mirror of `parse_u64le`: eight little-endian bytes at `pos`.
pub open spec fn spec_parse_u64(input: Seq<u8>, pos: int) -> Result<(u64, int), ParseError> {
    if 0 <= pos && pos + 8 <= input.len() {
        Ok((spec_u64_from_le_bytes(input.subrange(pos, pos + 8)), pos + 8))
    } else {
        Err(ParseError::Truncated)
    }
}

/// Mirror of `parse_vdf_str`: the bytes before the first null at or after
/// `pos`, with the continuation just past that null.
pub open spec fn spec_parse_str(input: Seq<u8>, pos: int) -> Result<(Seq<u8>, int), ParseError>
    decreases input.len() - pos,
{
    if !(0 <= pos < input.len()) {
        Err(ParseError::UnterminatedString)
    } else if input[pos] == 0 {
        Ok((Seq::empty(), pos + 1))
    } else {
        match spec_parse_str(input, pos + 1) {
            Ok((s, p2)) => Ok((seq![input[pos]] + s, p2)),
            Err(e) => Err(e),
        }
    }
}

/// Takes `n` raw bytes starting at `pos`.
pub fn parse_take_n<'a>(input: &'a [u8], pos: usize, n: usize) -> (r: Result<
    (&'a [u8], usize),
    ParseError,
>)
    requires
        pos <= input@.len(),
    ensures
        pos + n <= input@.len() <==> r is Ok,
        r matches Ok((b, p2)) ==> b@ == input@.subrange(pos as int, pos + n) && p2 == pos + n,
        r matches Err(e) ==> e == ParseError::Truncated,
{
    if n <= input.len() - pos {
        let b = slice_subrange(input, pos, pos + n);
        Ok((b, pos + n))
    } else {
        Err(ParseError::Truncated)
    }
}

/// True exactly when the bytes at `pos` start with `value`.
pub fn matches_bytes(input: &[u8], pos: usize, value: &[u8]) -> (r: bool)
    requires
        pos <= input@.len(),
    ensures
        r <==> (pos + value@.len() <= input@.len() && input@.subrange(
            pos as int,
            pos + value@.len(),
        ) == value@),
{
    if value.len() > input.len() - pos {
        return false;
    }
    let n = value.len();
    for i in 0..n
        invariant
            pos + n <= usize::MAX,
            pos + n <= input@.len(),
            n == value@.len(),
            forall|j: int| 0 <= j < i ==> input@[pos + j] == value@[j],
    {
        if input[pos + i] != value[i] {
            assert(input@.subrange(pos as int, pos + value@.len())[i as int] != value@[i as int]);
            return false;
        }
    }
    assert(input@.subrange(pos as int, pos + value@.len()) =~= value@);
    true
}

/// Reads one little-endian u32.
pub fn parse_u32le(input: &[u8], pos: usize) -> (r: Result<(u32, usize), ParseError>)
    requires
        pos <= input@.len(),
    ensures
        ({
            let m = spec_parse_u32(input@, pos as int);
            match r {
                Ok((v, p2)) => m == Ok::<_, ParseError>((v, p2 as int)),
                Err(e) => m == Err::<(u32, int), _>(e),
            }
        }),
{
    match parse_take_n(input, pos, 4) {
        Ok((b, p2)) => Ok((u32_from_le_bytes(b), p2)),
        Err(e) => Err(e),
    }
}

/// Reads one little-endian u64.
pub fn parse_u64le(input: &[u8], pos: usize) -> (r: Result<(u64, usize), ParseError>)
    requires
        pos <= input@.len(),
    ensures
        ({
            let m = spec_parse_u64(input@, pos as int);
            match r {
                Ok((v, p2)) => m == Ok::<_, ParseError>((v, p2 as int)),
                Err(e) => m == Err::<(u64, int), _>(e),
            }
        }),
{
    match parse_take_n(input, pos, 8) {
        Ok((b, p2)) => Ok((u64_from_le_bytes(b), p2)),
        Err(e) => Err(e),
    }
}

/// Reads one little-endian u32 and demands that it equal `magic`; any other
/// value is a `BadMagic` failure.
pub fn parse_magic(input: &[u8], pos: usize, magic: u32) -> (r: Result<(u32, usize), ParseError>)
    requires
        pos <= input@.len(),
    ensures
        ({
            let m = spec_parse_u32(input@, pos as int);
            match r {
                Ok((v, p2)) => m == Ok::<_, ParseError>((v, p2 as int)) && v == magic,
                Err(e) => (m matches Ok((v, _)) ==> v != magic && e == ParseError::BadMagic) && (
                m is Err ==> e == ParseError::Truncated),
            }
        }),
{
    match parse_u32le(input, pos) {
        Ok((v, p2)) => {
            if v == magic {
                Ok((v, p2))
            } else {
                Err(ParseError::BadMagic)
            }
        },
        Err(e) => Err(e),
    }
}

/// Mirror of `parse_vdf_header`: magic check, then the version field.
pub open spec fn spec_parse_header(input: Seq<u8>, pos: int) -> Result<
    (VDFHeader, int),
    ParseError,
> {
    match spec_parse_u32(input, pos) {
        Ok((m, p1)) => if m == MAGIC {
            match spec_parse_u32(input, p1) {
                Ok((v, p2)) => Ok((VDFHeader { magic: m, version: v }, p2)),
                Err(e) => Err(e),
            }
        } else {
            Err(ParseError::BadMagic)
        },
        Err(e) => Err(e),
    }
}

/// Decodes the fixed 8-byte header: fails with `BadMagic` when the first
/// four bytes differ from the magic constant; any version is accepted.
pub fn parse_vdf_header(input: &[u8], pos: usize) -> (r: Result<(VDFHeader, usize), ParseError>)
    requires
        pos <= input@.len(),
    ensures
        ({
            let m = spec_parse_header(input@, pos as int);
            match r {
                Ok((h, p2)) => m == Ok::<_, ParseError>((h, p2 as int)),
                Err(e) => m == Err::<(VDFHeader, int), _>(e),
            }
        }),
{
    match parse_magic(input, pos, MAGIC) {
        Ok((magic, p1)) => match parse_u32le(input, p1) {
            Ok((version, p2)) => Ok((VDFHeader { magic, version }, p2)),
            Err(e) => Err(e),
        },
        Err(e) => Err(e),
    }
}

/// Scans for the first null byte; the string is everything before it.
pub fn parse_vdf_str(input: &[u8], pos: usize) -> (r: Result<(Vec<u8>, usize), ParseError>)
    requires
        pos <= input@.len(),
    ensures
        ({
            let m = spec_parse_str(input@, pos as int);
            match r {
                Ok((s, p2)) => m == Ok::<_, ParseError>((s@, p2 as int)),
                Err(e) => m == Err::<(Seq<u8>, int), _>(e),
            }
        }),
{
    let len = input.len();
    let mut i = pos;
    while i < len
        invariant
            pos <= i <= len,
            len == input@.len(),
            forall|j: int| pos <= j < i ==> input@[j] != 0,
        decreases len - i,
    {
        if input[i] == 0 {
            let bytes = slice_to_vec(slice_subrange(input, pos, i));
            proof {
                lemma_spec_parse_str_found(input@, pos as int, i as int);
            }
            return Ok((bytes, i + 1));
        }
        i = i + 1;
    }
    proof {
        lemma_spec_parse_str_none(input@, pos as int);
    }
    Err(ParseError::UnterminatedString)
}

/// With no null in sight from `pos` on, string parsing fails.
proof fn lemma_spec_parse_str_none(input: Seq<u8>, pos: int)
    requires
        0 <= pos <= input.len(),
        forall|j: int| pos <= j < input.len() ==> input[j] != 0,
    ensures
        spec_parse_str(input, pos) == Err::<(Seq<u8>, int), ParseError>(
            ParseError::UnterminatedString,
        ),
    decreases input.len() - pos,
{
    if pos < input.len() {
        lemma_spec_parse_str_none(input, pos + 1);
    }
}

/// With the first null at `i`, string parsing returns the bytes before it.
proof fn lemma_spec_parse_str_found(input: Seq<u8>, pos: int, i: int)
    requires
        0 <= pos <= i < input.len(),
        forall|j: int| pos <= j < i ==> input[j] != 0,
        input[i] == 0,
    ensures
        spec_parse_str(input, pos) == Ok::<_, ParseError>((input.subrange(pos, i), i + 1)),
    decreases i - pos,
{
    if pos == i {
        assert(input.subrange(pos, i) =~= Seq::empty());
    } else {
        lemma_spec_parse_str_found(input, pos + 1, i);
        assert(seq![input[pos]] + input.subrange(pos + 1, i) =~= input.subrange(pos, i));
    }
}

/// Everything string parsing returns is in range, null-free, and sits in the
/// input exactly as its encoding.
pub proof fn lemma_spec_parse_str_ok(input: Seq<u8>, pos: int)
    requires
        0 <= pos <= input.len(),
    ensures
        spec_parse_str(input, pos) matches Ok((s, p2)) ==> {
            &&& pos < p2 <= input.len()
            &&& p2 == pos + s.len() + 1
            &&& crate::model::wf_str(s)
            &&& input.subrange(pos, p2) == crate::model::spec_encode_str(s)
        },
    decreases input.len() - pos,
{
    if pos < input.len() && input[pos] != 0 {
        lemma_spec_parse_str_ok(input, pos + 1);
        if let Ok((s2, p2)) = spec_parse_str(input, pos + 1) {
            assert(input.subrange(pos, p2) =~= seq![input[pos]] + input.subrange(pos + 1, p2));
            assert(seq![input[pos]] + crate::model::spec_encode_str(s2)
                =~= crate::model::spec_encode_str(seq![input[pos]] + s2));
        }
    } else if pos < input.len() {
        assert(input.subrange(pos, pos + 1) =~= crate::model::spec_encode_str(Seq::empty()));
    }
}

/// Mirror of `parse_vdf_app_node`: dispatch on the tag byte.
pub open spec fn spec_parse_node(input: Seq<u8>, pos: int) -> Result<(NodeV, int), ParseError>
    decreases input.len() - pos, 0int,
{
    if !(0 <= pos < input.len()) {
        Err(ParseError::Truncated)
    } else if input[pos] == TAG_SIMPLE {
        spec_parse_node_simple(input, pos + 1)
    } else if input[pos] == TAG_STR {
        spec_parse_node_str(input, pos + 1)
    } else if input[pos] == TAG_INT {
        spec_parse_node_int(input, pos + 1)
    } else {
        Err(ParseError::UnknownTag)
    }
}

/// Mirror of `parse_vdf_app_node_simple`: name, then a nested node list that
/// consumes its own end tag. The range test on the continuation only guards
/// termination; string parsing always lands inside it.
pub open spec fn spec_parse_node_simple(input: Seq<u8>, pos: int) -> Result<
    (NodeV, int),
    ParseError,
>
    decreases input.len() - pos, 2int,
{
    match spec_parse_str(input, pos) {
        Ok((name, p1)) => if pos < p1 <= input.len() {
            let (children, p2) = spec_parse_nodes(input, p1);
            Ok((NodeV::Simple { name, children }, p2))
        } else {
            Err(ParseError::UnterminatedString)
        },
        Err(e) => Err(e),
    }
}

/// Mirror of `parse_vdf_app_node_str`: a name string then a value string.
pub open spec fn spec_parse_node_str(input: Seq<u8>, pos: int) -> Result<
    (NodeV, int),
    ParseError,
> {
    match spec_parse_str(input, pos) {
        Ok((name, p1)) => match spec_parse_str(input, p1) {
            Ok((value, p2)) => Ok((NodeV::Str { name, value }, p2)),
            Err(e) => Err(e),
        },
        Err(e) => Err(e),
    }
}

/// Mirror of `parse_vdf_app_node_int`: a name string then a u32 value.
pub open spec fn spec_parse_node_int(input: Seq<u8>, pos: int) -> Result<
    (NodeV, int),
    ParseError,
> {
    match spec_parse_str(input, pos) {
        Ok((name, p1)) => match spec_parse_u32(input, p1) {
            Ok((value, p2)) => Ok((NodeV::Int { name, value }, p2)),
            Err(e) => Err(e),
        },
        Err(e) => Err(e),
    }
}

/// Mirror of `parse_vdf_app_nodes`. An end tag closes the list; a failing
/// node stops it without error, keeping the nodes read so far — the lenient
/// policy that also governs the section loop.
pub open spec fn spec_parse_nodes(input: Seq<u8>, pos: int) -> (Seq<NodeV>, int)
    decreases input.len() - pos, 1int,
{
    if !(0 <= pos < input.len()) {
        (Seq::empty(), pos)
    } else if input[pos] == TAG_END {
        (Seq::empty(), pos + 1)
    } else {
        match spec_parse_node(input, pos) {
            Ok((n, p1)) => if pos < p1 <= input.len() {
                let (rest, p2) = spec_parse_nodes(input, p1);
                (seq![n] + rest, p2)
            } else {
                (Seq::empty(), pos)
            },
            Err(e) => (Seq::empty(), pos),
        }
    }
}

/// Reads one node; the caller's loop treats any failure as end of list.
pub fn parse_vdf_app_node(input: &[u8], pos: usize) -> (r: Result<
    (VDFAppNode, usize),
    ParseError,
>)
    requires
        pos <= input@.len(),
    ensures
        ({
            let m = spec_parse_node(input@, pos as int);
            match r {
                Ok((n, p2)) => m == Ok::<_, ParseError>((n@, p2 as int)) && pos < p2
                    <= input@.len(),
                Err(e) => m == Err::<(NodeV, int), _>(e),
            }
        }),
    decreases input@.len() - pos, 0int,
{
    if pos >= input.len() {
        return Err(ParseError::Truncated);
    }
    let tag = input[pos];
    if tag == TAG_SIMPLE {
        parse_vdf_app_node_simple(input, pos + 1)
    } else if tag == TAG_STR {
        parse_vdf_app_node_str(input, pos + 1)
    } else if tag == TAG_INT {
        parse_vdf_app_node_int(input, pos + 1)
    } else {
        Err(ParseError::UnknownTag)
    }
}

/// Reads a container's payload: its name, then its children.
pub fn parse_vdf_app_node_simple(input: &[u8], pos: usize) -> (r: Result<
    (VDFAppNode, usize),
    ParseError,
>)
    requires
        pos <= input@.len(),
    ensures
        ({
            let m = spec_parse_node_simple(input@, pos as int);
            match r {
                Ok((n, p2)) => m == Ok::<_, ParseError>((n@, p2 as int)) && pos < p2
                    <= input@.len(),
                Err(e) => m == Err::<(NodeV, int), _>(e),
            }
        }),
    decreases input@.len() - pos, 2int,
{
    match parse_vdf_str(input, pos) {
        Ok((name, p1)) => {
            proof {
                lemma_spec_parse_str_ok(input@, pos as int);
            }
            let (children, p2) = parse_vdf_app_nodes(input, p1);
            proof {
                lemma_view_simple(name, children);
            }
            Ok((VDFAppNode::Simple { name, children }, p2))
        },
        Err(e) => Err(e),
    }
}

/// Reads a string node's payload: its name, then its value.
pub fn parse_vdf_app_node_str(input: &[u8], pos: usize) -> (r: Result<
    (VDFAppNode, usize),
    ParseError,
>)
    requires
        pos <= input@.len(),
    ensures
        ({
            let m = spec_parse_node_str(input@, pos as int);
            match r {
                Ok((n, p2)) => m == Ok::<_, ParseError>((n@, p2 as int)) && pos < p2
                    <= input@.len(),
                Err(e) => m == Err::<(NodeV, int), _>(e),
            }
        }),
{
    match parse_vdf_str(input, pos) {
        Ok((name, p1)) => {
            proof {
                lemma_spec_parse_str_ok(input@, pos as int);
            }
            match parse_vdf_str(input, p1) {
                Ok((value, p2)) => {
                    proof {
                        lemma_spec_parse_str_ok(input@, p1 as int);
                    }
                    Ok((VDFAppNode::Str { name, value }, p2))
                },
                Err(e) => Err(e),
            }
        },
        Err(e) => Err(e),
    }
}

/// Reads an integer node's payload: its name, then its u32 value.
pub fn parse_vdf_app_node_int(input: &[u8], pos: usize) -> (r: Result<
    (VDFAppNode, usize),
    ParseError,
>)
    requires
        pos <= input@.len(),
    ensures
        ({
            let m = spec_parse_node_int(input@, pos as int);
            match r {
                Ok((n, p2)) => m == Ok::<_, ParseError>((n@, p2 as int)) && pos < p2
                    <= input@.len(),
                Err(e) => m == Err::<(NodeV, int), _>(e),
            }
        }),
{
    match parse_vdf_str(input, pos) {
        Ok((name, p1)) => {
            proof {
                lemma_spec_parse_str_ok(input@, pos as int);
            }
            match parse_u32le(input, p1) {
                Ok((value, p2)) => Ok((VDFAppNode::Int { name, value }, p2)),
                Err(e) => Err(e),
            }
        },
        Err(e) => Err(e),
    }
}

/// Reads nodes until an end tag closes the list or a node fails; a failure
/// is swallowed and the nodes read so far are kept.
pub fn parse_vdf_app_nodes(input: &[u8], pos: usize) -> (r: (Vec<VDFAppNode>, usize))
    requires
        pos <= input@.len(),
    ensures
        nodes_view(r.0@) == spec_parse_nodes(input@, pos as int).0,
        r.1 == spec_parse_nodes(input@, pos as int).1,
        pos <= r.1 <= input@.len(),
    decreases input@.len() - pos, 1int,
{
    let mut children: Vec<VDFAppNode> = Vec::new();
    let mut cur = pos;
    loop
        invariant
            pos <= cur <= input@.len(),
            nodes_view(children@) + spec_parse_nodes(input@, cur as int).0 == spec_parse_nodes(
                input@,
                pos as int,
            ).0,
            spec_parse_nodes(input@, cur as int).1 == spec_parse_nodes(input@, pos as int).1,
        decreases input@.len() - cur,
    {
        if cur >= input.len() {
            proof {
                assert(nodes_view(children@) + Seq::<NodeV>::empty() =~= nodes_view(children@));
            }
            return (children, cur);
        }
        let tag = input[cur];
        if tag == TAG_END {
            proof {
                assert(nodes_view(children@) + Seq::<NodeV>::empty() =~= nodes_view(children@));
            }
            return (children, cur + 1);
        }
        match parse_vdf_app_node(input, cur) {
            Ok((node, p1)) => {
                proof {
                    let ghost (rest, p2) = spec_parse_nodes(input@, p1 as int);
                    lemma_nodes_view_push(children@, node);
                    assert(nodes_view(children@.push(node)) + rest =~= nodes_view(children@) + (
                    seq![node@] + rest));
                }
                children.push(node);
                cur = p1;
            },
            Err(_) => {
                proof {
                    assert(nodes_view(children@) + Seq::<NodeV>::empty() =~= nodes_view(children@));
                }
                return (children, cur);
            },
        }
    }
}

/// Mirror of the body parse inside `parse_vdf_app_section`: the six fixed
/// scalar fields, then the node tree, all within the sliced-out body.
/// Leftover body bytes after the node tree are not an error.
pub open spec fn spec_parse_section_fields(body: Seq<u8>, app_id: u32, data_size: u32) -> Result<
    SectionV,
    ParseError,
> {
    match spec_parse_u32(body, 0) {
        Ok((info_state, p1)) => match spec_parse_u32(body, p1) {
            Ok((last_updated, p2)) => match spec_parse_u64(body, p2) {
                Ok((pics_token, p3)) => if p3 + 40 <= body.len() {
                    let sha1 = body.subrange(p3, p3 + 20);
                    let binary_sha1 = body.subrange(p3 + 20, p3 + 40);
                    match spec_parse_u32(body, p3 + 40) {
                        Ok((change_number, p4)) => {
                            let (nodes, _) = spec_parse_nodes(body, p4);
                            Ok(
                                SectionV {
                                    app_id,
                                    data_size,
                                    info_state,
                                    last_updated,
                                    pics_token,
                                    sha1,
                                    binary_sha1,
                                    change_number,
                                    nodes,
                                },
                            )
                        },
                        Err(e) => Err(e),
                    }
                } else {
                    Err(ParseError::Truncated)
                },
                Err(e) => Err(e),
            },
            Err(e) => Err(e),
        },
        Err(e) => Err(e),
    }
}

/// Mirror of `parse_vdf_app_section`: identifier, declared length, then the
/// body sliced to exactly that length.
pub open spec fn spec_parse_section(input: Seq<u8>, pos: int) -> Result<
    (SectionV, int),
    ParseError,
> {
    match spec_parse_u32(input, pos) {
        Ok((app_id, p1)) => match spec_parse_u32(input, p1) {
            Ok((data_size, p2)) => if p2 + data_size <= input.len() {
                let body = input.subrange(p2, p2 + data_size);
                match spec_parse_section_fields(body, app_id, data_size) {
                    Ok(sec) => Ok((sec, p2 + data_size)),
                    Err(e) => Err(e),
                }
            } else {
                Err(ParseError::Truncated)
            },
            Err(e) => Err(e),
        },
        Err(e) => Err(e),
    }
}

/// Mirror of `parse_vdf_app_sections`. Four zero bytes where an identifier
/// is expected close the list, consuming exactly those four bytes; a failing
/// section stops the list without error, keeping the sections read so far.
pub open spec fn spec_parse_sections(input: Seq<u8>, pos: int) -> (Seq<SectionV>, int)
    decreases input.len() - pos,
{
    if spec_parse_u32(input, pos) matches Ok((v, p1)) && v == 0 {
        (Seq::empty(), pos + 4)
    } else {
        match spec_parse_section(input, pos) {
            Ok((sec, p2)) => if pos < p2 <= input.len() {
                let (rest, p3) = spec_parse_sections(input, p2);
                (seq![sec] + rest, p3)
            } else {
                (Seq::empty(), pos)
            },
            Err(e) => (Seq::empty(), pos),
        }
    }
}

/// Mirror of `read`: the header, then the section list.
pub open spec fn spec_read(input: Seq<u8>) -> Result<(DocV, int), ParseError> {
    match spec_parse_header(input, 0) {
        Ok((h, p1)) => {
            let (sections, p2) = spec_parse_sections(input, p1);
            Ok((DocV { header: h@, sections }, p2))
        },
        Err(e) => Err(e),
    }
}

/// Reads one length-framed section; the caller's loop treats any failure as
/// end of the section list.
pub fn parse_vdf_app_section(input: &[u8], pos: usize) -> (r: Result<
    (VDFAppSection, usize),
    ParseError,
>)
    requires
        pos <= input@.len(),
    ensures
        ({
            let m = spec_parse_section(input@, pos as int);
            match r {
                Ok((sec, p2)) => m == Ok::<_, ParseError>((sec@, p2 as int)) && pos < p2
                    <= input@.len(),
                Err(e) => m == Err::<(SectionV, int), _>(e),
            }
        }),
{
    let (app_id, p1) = match parse_u32le(input, pos) {
        Ok(v) => v,
        Err(e) => {
            return Err(e);
        },
    };
    let (data_size, p2) = match parse_u32le(input, p1) {
        Ok(v) => v,
        Err(e) => {
            return Err(e);
        },
    };
    let size = data_size as usize;
    if size > input.len() - p2 {
        return Err(ParseError::Truncated);
    }
    let body = slice_subrange(input, p2, p2 + size);
    let (info_state, b1) = match parse_u32le(body, 0) {
        Ok(v) => v,
        Err(e) => {
            return Err(e);
        },
    };
    let (last_updated, b2) = match parse_u32le(body, b1) {
        Ok(v) => v,
        Err(e) => {
            return Err(e);
        },
    };
    let (pics_token, b3) = match parse_u64le(body, b2) {
        Ok(v) => v,
        Err(e) => {
            return Err(e);
        },
    };
    if 40 > body.len() - b3 {
        return Err(ParseError::Truncated);
    }
    let sha1 = slice_to_vec(slice_subrange(body, b3, b3 + 20));
    let binary_sha1 = slice_to_vec(slice_subrange(body, b3 + 20, b3 + 40));
    let (change_number, b4) = match parse_u32le(body, b3 + 40) {
        Ok(v) => v,
        Err(e) => {
            return Err(e);
        },
    };
    let (nodes, _) = parse_vdf_app_nodes(body, b4);
    let section = VDFAppSection {
        app_id,
        data_size,
        info_state,
        last_updated,
        pics_token,
        sha1,
        binary_sha1,
        change_number,
        nodes,
    };
    Ok((section, p2 + size))
}

/// Reads sections until the four-zero-byte sentinel or a failing section
/// closes the list; a failure is swallowed and the sections read are kept.
pub fn parse_vdf_app_sections(input: &[u8], pos: usize) -> (r: (Vec<VDFAppSection>, usize))
    requires
        pos <= input@.len(),
    ensures
        sections_view(r.0@) == spec_parse_sections(input@, pos as int).0,
        r.1 == spec_parse_sections(input@, pos as int).1,
        pos <= r.1 <= input@.len(),
{
    let mut sections: Vec<VDFAppSection> = Vec::new();
    let mut cur = pos;
    loop
        invariant
            pos <= cur <= input@.len(),
            sections_view(sections@) + spec_parse_sections(input@, cur as int).0
                == spec_parse_sections(input@, pos as int).0,
            spec_parse_sections(input@, cur as int).1 == spec_parse_sections(
                input@,
                pos as int,
            ).1,
        decreases input@.len() - cur,
    {
        match parse_u32le(input, cur) {
            Ok((v, p1)) => {
                if v == 0 {
                    proof {
                        assert(sections_view(sections@) + Seq::<SectionV>::empty()
                            =~= sections_view(sections@));
                    }
                    return (sections, p1);
                }
            },
            Err(_) => {},
        }
        match parse_vdf_app_section(input, cur) {
            Ok((section, p1)) => {
                proof {
                    let ghost (rest, p2) = spec_parse_sections(input@, p1 as int);
                    lemma_sections_view_push(sections@, section);
                    assert(sections_view(sections@.push(section)) + rest =~= sections_view(
                        sections@,
                    ) + (seq![section@] + rest));
                }
                sections.push(section);
                cur = p1;
            },
            Err(_) => {
                proof {
                    assert(sections_view(sections@) + Seq::<SectionV>::empty() =~= sections_view(
                        sections@,
                    ));
                }
                return (sections, cur);
            },
        }
    }
}

/// Decodes a whole document. Fails only on a header problem: `BadMagic` when
/// the magic constant is wrong, `Truncated` when even the header is missing;
/// everything after the header decodes leniently.
pub fn read(input: &[u8]) -> (r: Result<(VDF, usize), ParseError>)
    ensures
        ({
            let m = spec_read(input@);
            match r {
                Ok((vdf, p)) => m == Ok::<_, ParseError>((vdf@, p as int)),
                Err(e) => m == Err::<(DocV, int), _>(e),
            }
        }),
{
    match parse_vdf_header(input, 0) {
        Ok((header, p1)) => {
            let (sections, p2) = parse_vdf_app_sections(input, p1);
            Ok((VDF { header, sections }, p2))
        },
        Err(e) => Err(e),
    }
}

/// Parsing the encoding of a null-free string recovers exactly that string.
pub proof fn lemma_spec_parse_str_encode(input: Seq<u8>, pos: int, t: Seq<u8>)
    requires
        crate::model::wf_str(t),
        0 <= pos,
        pos + t.len() + 1 <= input.len(),
        input.subrange(pos, pos + t.len() + 1) == crate::model::spec_encode_str(t),
    ensures
        spec_parse_str(input, pos) == Ok::<_, ParseError>((t, pos + t.len() + 1)),
    decreases t.len(),
{
    assert forall|j: int| 0 <= j < t.len() + 1 implies input[pos + j] == crate::model::spec_encode_str(
        t,
    )[j] by {
        assert(input.subrange(pos, pos + t.len() + 1)[j] == input[pos + j]);
    }
    assert(input[pos + 0] == crate::model::spec_encode_str(t)[0]);
    if t.len() == 0 {
        assert(input[pos] == 0);
        assert(spec_parse_str(input, pos) == Ok::<_, ParseError>((Seq::<u8>::empty(), pos + 1)));
        assert(t =~= Seq::<u8>::empty());
    } else {
        assert(input[pos] == t[0]);
        assert(input[pos] != 0);
        let t2 = t.drop_first();
        assert(input.subrange(pos + 1, pos + 1 + t2.len() + 1) =~= crate::model::spec_encode_str(
            t2,
        )) by {
            assert forall|j: int| 0 <= j < t2.len() + 1 implies input.subrange(
                pos + 1,
                pos + 1 + t2.len() + 1,
            )[j] == crate::model::spec_encode_str(t2)[j] by {
                assert(input[pos + 1 + j] == crate::model::spec_encode_str(t)[j + 1]);
            }
        }
        lemma_spec_parse_str_encode(input, pos + 1, t2);
        assert(seq![input[pos]] + t2 =~= t);
    }
}

} // verus!
