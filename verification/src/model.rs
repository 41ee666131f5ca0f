//! Mathematical model of the wire format: ghost mirrors of the in-memory
//! types, the encoding of each structure as a byte sequence, and the
//! well-formedness conditions under which that encoding is invertible.
//!
//! All multi-byte integers are little-endian. A document is a header, a run
//! of length-framed sections, and a four-zero-byte sentinel; each section
//! body is six fixed scalar fields followed by a node tree whose lists are
//! each closed by exactly one end tag.

use vstd::bytes::{spec_u32_to_le_bytes, spec_u64_to_le_bytes};
use vstd::prelude::*;

verus! {

broadcast use vstd::seq::group_seq_axioms;

/// The constant that every valid document's first four bytes decode to.
pub const MAGIC: u32 = 0x07564427;

/// Tag byte opening a container node.
pub const TAG_SIMPLE: u8 = 0;

/// Tag byte opening a string-valued node.
pub const TAG_STR: u8 = 1;

/// Tag byte opening an integer-valued node.
pub const TAG_INT: u8 = 2;

/// Tag byte closing a node list.
pub const TAG_END: u8 = 8;

/// Ghost mirror of the document header.
#[verifier::ext_equal]
pub struct HeaderV {
    pub magic: u32,
    pub version: u32,
}

/// Ghost mirror of one metadata node.
#[verifier::ext_equal]
pub enum NodeV {
    Simple { name: Seq<u8>, children: Seq<NodeV> },
    Str { name: Seq<u8>, value: Seq<u8> },
    Int { name: Seq<u8>, value: u32 },
}

/// Ghost mirror of one section.
#[verifier::ext_equal]
pub struct SectionV {
    pub app_id: u32,
    pub data_size: u32,
    pub info_state: u32,
    pub last_updated: u32,
    pub pics_token: u64,
    pub sha1: Seq<u8>,
    pub binary_sha1: Seq<u8>,
    pub change_number: u32,
    pub nodes: Seq<NodeV>,
}

/// Ghost mirror of a whole document.
#[verifier::ext_equal]
pub struct DocV {
    pub header: HeaderV,
    pub sections: Seq<SectionV>,
}

/// Encoding of a string: its bytes followed by one null terminator.
pub open spec fn spec_encode_str(s: Seq<u8>) -> Seq<u8> {
    s + seq![0u8]
}

/// Encoding of one node: tag byte, name, then the variant's payload.
pub open spec fn spec_encode_node(n: NodeV) -> Seq<u8>
    decreases n, 0int,
{
    match n {
        NodeV::Simple { name, children } => seq![TAG_SIMPLE] + spec_encode_str(name)
            + spec_encode_nodes(children),
        NodeV::Str { name, value } => seq![TAG_STR] + spec_encode_str(name) + spec_encode_str(
            value,
        ),
        NodeV::Int { name, value } => seq![TAG_INT] + spec_encode_str(name)
            + spec_u32_to_le_bytes(value),
    }
}

/// The node encodings of a list, concatenated in order, without the end tag.
pub open spec fn spec_encode_node_list(ns: Seq<NodeV>) -> Seq<u8>
    decreases ns, 1int,
{
    if ns.len() == 0 {
        Seq::empty()
    } else {
        spec_encode_node(ns[0]) + spec_encode_node_list(ns.drop_first())
    }
}

/// Encoding of a node list: each node's encoding in order, then exactly one
/// end tag.
pub open spec fn spec_encode_nodes(ns: Seq<NodeV>) -> Seq<u8>
    decreases ns, 2int,
{
    spec_encode_node_list(ns) + seq![TAG_END]
}

/// Encoding of a section body: the six fixed scalar fields, then the node
/// tree. This is what a section's declared length field measures.
pub open spec fn spec_encode_section_body(s: SectionV) -> Seq<u8> {
    spec_u32_to_le_bytes(s.info_state) + spec_u32_to_le_bytes(s.last_updated)
        + spec_u64_to_le_bytes(s.pics_token) + s.sha1 + s.binary_sha1 + spec_u32_to_le_bytes(
        s.change_number,
    ) + spec_encode_nodes(s.nodes)
}

/// The exact byte length of a section's encoded body.
pub open spec fn spec_body_len(s: SectionV) -> nat {
    spec_encode_section_body(s).len()
}

/// Encoding of one section: identifier, then the body's measured length,
/// then the body itself.
pub open spec fn spec_encode_section(s: SectionV) -> Seq<u8> {
    spec_u32_to_le_bytes(s.app_id) + spec_u32_to_le_bytes(spec_body_len(s) as u32)
        + spec_encode_section_body(s)
}

/// The section encodings of a document, concatenated in order, without the
/// end-of-sections sentinel.
pub open spec fn spec_encode_section_list(ss: Seq<SectionV>) -> Seq<u8>
    decreases ss.len(),
{
    if ss.len() == 0 {
        Seq::empty()
    } else {
        spec_encode_section(ss[0]) + spec_encode_section_list(ss.drop_first())
    }
}

/// The four zero bytes that close the section list: the little-endian
/// encoding of the value zero, where the next section's identifier would
/// otherwise stand.
pub open spec fn spec_sentinel() -> Seq<u8> {
    spec_u32_to_le_bytes(0u32)
}

/// Encoding of a whole document: header, sections, then the four-zero-byte
/// end-of-sections sentinel.
pub open spec fn spec_encode_doc(d: DocV) -> Seq<u8> {
    spec_u32_to_le_bytes(d.header.magic) + spec_u32_to_le_bytes(d.header.version)
        + spec_encode_section_list(d.sections) + spec_sentinel()
}

/// A string is storable when it contains no null byte; the terminator that
/// ends its encoding is then the first null the decoder meets.
pub open spec fn wf_str(s: Seq<u8>) -> bool {
    forall|i: int| 0 <= i < s.len() ==> s[i] != 0
}

/// Every name and value in the node is storable.
pub open spec fn wf_node(n: NodeV) -> bool
    decreases n, 0int,
{
    match n {
        NodeV::Simple { name, children } => wf_str(name) && wf_nodes(children),
        NodeV::Str { name, value } => wf_str(name) && wf_str(value),
        NodeV::Int { name, value } => wf_str(name),
    }
}

/// Every node of the list is well formed.
pub open spec fn wf_nodes(ns: Seq<NodeV>) -> bool
    decreases ns, 1int,
{
    if ns.len() == 0 {
        true
    } else {
        wf_node(ns[0]) && wf_nodes(ns.drop_first())
    }
}

/// A section round-trips exactly when its digests have their fixed width,
/// its node tree is well formed, its encoded body is short enough for the
/// length field, and its stored length agrees with that measured length.
/// A zero identifier is excluded: its four encoded bytes are the
/// end-of-sections sentinel, so the decoder would stop at such a section
/// instead of reading it.
pub open spec fn wf_section(s: SectionV) -> bool {
    &&& s.app_id != 0
    &&& s.sha1.len() == 20
    &&& s.binary_sha1.len() == 20
    &&& wf_nodes(s.nodes)
    &&& spec_body_len(s) <= u32::MAX
    &&& s.data_size == spec_body_len(s)
}

/// A document round-trips exactly when it carries the magic constant and
/// every section is well formed.
pub open spec fn wf_doc(d: DocV) -> bool {
    &&& d.header.magic == MAGIC
    &&& forall|i: int| 0 <= i < d.sections.len() ==> wf_section(#[trigger] d.sections[i])
}

/// Concatenating node lists concatenates their encodings.
pub proof fn lemma_encode_node_list_concat(a: Seq<NodeV>, b: Seq<NodeV>)
    ensures
        spec_encode_node_list(a + b) == spec_encode_node_list(a) + spec_encode_node_list(b),
    decreases a.len(),
{
    if a.len() == 0 {
        assert(a + b =~= b);
        assert(spec_encode_node_list(a) + spec_encode_node_list(b) =~= spec_encode_node_list(b));
    } else {
        assert((a + b).drop_first() =~= a.drop_first() + b);
        lemma_encode_node_list_concat(a.drop_first(), b);
        assert(spec_encode_node_list(a + b) =~= spec_encode_node_list(a)
            + spec_encode_node_list(b));
    }
}

/// The encoding of a one-node list is that node's encoding.
pub proof fn lemma_encode_node_list_one(n: NodeV)
    ensures
        spec_encode_node_list(seq![n]) == spec_encode_node(n),
{
    reveal_with_fuel(spec_encode_node_list, 2);
    assert(seq![n].drop_first() =~= Seq::<NodeV>::empty());
    assert(spec_encode_node_list(seq![n]) =~= spec_encode_node(n));
}

/// Concatenating section lists concatenates their encodings.
pub proof fn lemma_encode_section_list_concat(a: Seq<SectionV>, b: Seq<SectionV>)
    ensures
        spec_encode_section_list(a + b) == spec_encode_section_list(a)
            + spec_encode_section_list(b),
    decreases a.len(),
{
    if a.len() == 0 {
        assert(a + b =~= b);
        assert(spec_encode_section_list(a) + spec_encode_section_list(b)
            =~= spec_encode_section_list(b));
    } else {
        assert((a + b).drop_first() =~= a.drop_first() + b);
        lemma_encode_section_list_concat(a.drop_first(), b);
        assert(spec_encode_section_list(a + b) =~= spec_encode_section_list(a)
            + spec_encode_section_list(b));
    }
}

/// The encoding of a one-section list is that section's encoding.
pub proof fn lemma_encode_section_list_one(s: SectionV)
    ensures
        spec_encode_section_list(seq![s]) == spec_encode_section(s),
{
    reveal_with_fuel(spec_encode_section_list, 2);
    assert(seq![s].drop_first() =~= Seq::<SectionV>::empty());
    assert(spec_encode_section_list(seq![s]) =~= spec_encode_section(s));
}

} // verus!
