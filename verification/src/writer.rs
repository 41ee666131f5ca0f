//! Encoder: builds the byte image of a document, proved equal to the spec
//! encoding. A section's body is serialized into a scratch buffer first and
//! measured, so the emitted length field is exact by construction.

use vstd::bytes::{spec_u32_to_le_bytes, spec_u64_to_le_bytes, u32_to_le_bytes, u64_to_le_bytes};
use vstd::prelude::*;

use crate::model::{
    lemma_encode_node_list_concat, lemma_encode_node_list_one, lemma_encode_section_list_concat,
    lemma_encode_section_list_one, spec_body_len, spec_encode_doc, spec_encode_node,
    spec_encode_node_list, spec_encode_nodes, spec_encode_section, spec_encode_section_body,
    spec_encode_section_list, spec_encode_str, spec_sentinel, TAG_END, TAG_INT, TAG_SIMPLE,
    TAG_STR,
};
use crate::vdf::{nodes_view, sections_view, VDFAppNode, VDFAppSection, VDFHeader, VDF};

verus! {

broadcast use vstd::seq::group_seq_axioms, vstd::std_specs::vec::axiom_vec_index_decreases;

/// Every section's encoded body fits the 32-bit length field; the encoder
/// asks no more than this of a document.
pub open spec fn sections_fit(ss: Seq<crate::model::SectionV>) -> bool {
    forall|i: int| 0 <= i < ss.len() ==> spec_body_len(#[trigger] ss[i]) <= u32::MAX
}

/// Appends a byte vector's contents unchanged.
fn push_bytes(out: &mut Vec<u8>, bytes: &Vec<u8>)
    ensures
        final(out)@ == old(out)@ + bytes@,
{
    let n = bytes.len();
    for i in 0..n
        invariant
            n == bytes@.len(),
            out@ == old(out)@ + bytes@.subrange(0, i as int),
    {
        out.push(bytes[i]);
        assert(old(out)@ + bytes@.subrange(0, i as int) + seq![bytes@[i as int]] =~= old(out)@
            + bytes@.subrange(0, i + 1));
    }
    assert(bytes@.subrange(0, n as int) =~= bytes@);
}

/// Writes the fixed 8-byte header: magic, then version, little-endian.
pub fn write_vdf_header(out: &mut Vec<u8>, header: &VDFHeader)
    ensures
        final(out)@ == old(out)@ + spec_u32_to_le_bytes(header.magic) + spec_u32_to_le_bytes(
            header.version,
        ),
{
    let mut magic = u32_to_le_bytes(header.magic);
    out.append(&mut magic);
    let mut version = u32_to_le_bytes(header.version);
    out.append(&mut version);
}

/// Writes a string: its bytes, then one null terminator.
pub fn write_vdf_str(out: &mut Vec<u8>, string: &Vec<u8>)
    ensures
        final(out)@ == old(out)@ + spec_encode_str(string@),
{
    push_bytes(out, string);
    out.push(0);
    assert(old(out)@ + string@ + seq![0u8] =~= old(out)@ + spec_encode_str(string@));
}

/// Writes one node: its tag, name, and payload.
pub fn write_vdf_app_node(out: &mut Vec<u8>, node: &VDFAppNode)
    ensures
        final(out)@ == old(out)@ + spec_encode_node(node@),
    decreases *node, 1int,
{
    match node {
        VDFAppNode::Simple { .. } => write_vdf_app_node_simple(out, node),
        VDFAppNode::Str { .. } => write_vdf_app_node_str(out, node),
        VDFAppNode::Int { .. } => write_vdf_app_node_int(out, node),
    }
}

/// Writes a container node: tag, name, then its children as a nested list
/// that brings its own end tag.
pub fn write_vdf_app_node_simple(out: &mut Vec<u8>, node: &VDFAppNode)
    requires
        node is Simple,
    ensures
        final(out)@ == old(out)@ + spec_encode_node(node@),
    decreases *node, 0int,
{
    out.push(TAG_SIMPLE);
    if let VDFAppNode::Simple { name, children } = node {
        write_vdf_str(out, name);
        write_vdf_app_nodes(out, children);
        proof {
            crate::vdf::lemma_view_simple(*name, *children);
            assert(old(out)@ + seq![TAG_SIMPLE] + spec_encode_str(name@) + spec_encode_nodes(
                nodes_view(children@),
            ) =~= old(out)@ + spec_encode_node(node@));
        }
    }
}

/// Writes a string node: tag, name, then the value string.
pub fn write_vdf_app_node_str(out: &mut Vec<u8>, node: &VDFAppNode)
    requires
        node is Str,
    ensures
        final(out)@ == old(out)@ + spec_encode_node(node@),
{
    out.push(TAG_STR);
    if let VDFAppNode::Str { name, value } = node {
        write_vdf_str(out, name);
        write_vdf_str(out, value);
        assert(old(out)@ + seq![TAG_STR] + spec_encode_str(name@) + spec_encode_str(value@)
            =~= old(out)@ + spec_encode_node(node@));
    }
}

/// Writes an integer node: tag, name, then four little-endian value bytes.
pub fn write_vdf_app_node_int(out: &mut Vec<u8>, node: &VDFAppNode)
    requires
        node is Int,
    ensures
        final(out)@ == old(out)@ + spec_encode_node(node@),
{
    out.push(TAG_INT);
    if let VDFAppNode::Int { name, value } = node {
        write_vdf_str(out, name);
        let mut bytes = u32_to_le_bytes(*value);
        out.append(&mut bytes);
        assert(old(out)@ + seq![TAG_INT] + spec_encode_str(name@) + spec_u32_to_le_bytes(*value)
            =~= old(out)@ + spec_encode_node(node@));
    }
}

/// Writes a node list: each node in order, then exactly one end tag.
pub fn write_vdf_app_nodes(out: &mut Vec<u8>, nodes: &Vec<VDFAppNode>)
    ensures
        final(out)@ == old(out)@ + spec_encode_nodes(nodes_view(nodes@)),
    decreases *nodes, 2int,
{
    let n = nodes.len();
    for i in 0..n
        invariant
            n == nodes@.len(),
            out@ == old(out)@ + spec_encode_node_list(nodes_view(nodes@).take(i as int)),
        decreases n - i,
    {
        write_vdf_app_node(out, &nodes[i]);
        proof {
            let ghost views = nodes_view(nodes@);
            lemma_encode_node_list_concat(views.take(i as int), seq![views[i as int]]);
            lemma_encode_node_list_one(views[i as int]);
            assert(views.take(i as int) + seq![views[i as int]] =~= views.take(i + 1));
            assert(old(out)@ + spec_encode_node_list(views.take(i as int)) + spec_encode_node(
                nodes@[i as int]@,
            ) =~= old(out)@ + spec_encode_node_list(views.take(i + 1)));
        }
    }
    out.push(TAG_END);
    proof {
        let ghost views = nodes_view(nodes@);
        assert(views.take(n as int) =~= views);
        assert(old(out)@ + spec_encode_node_list(views) + seq![TAG_END] =~= old(out)@
            + spec_encode_nodes(views));
    }
}

/// True exactly when the section's encoded body fits the 32-bit length
/// field. Decided by building the body and measuring it.
pub fn section_fits(section: &VDFAppSection) -> (r: bool)
    ensures
        r <==> spec_body_len(section@) <= u32::MAX,
{
    let mut data: Vec<u8> = Vec::new();
    let mut info_state = u32_to_le_bytes(section.info_state);
    data.append(&mut info_state);
    let mut last_updated = u32_to_le_bytes(section.last_updated);
    data.append(&mut last_updated);
    let mut pics_token = u64_to_le_bytes(section.pics_token);
    data.append(&mut pics_token);
    push_bytes(&mut data, &section.sha1);
    push_bytes(&mut data, &section.binary_sha1);
    let mut change_number = u32_to_le_bytes(section.change_number);
    data.append(&mut change_number);
    write_vdf_app_nodes(&mut data, &section.nodes);
    assert(data@ =~= spec_encode_section_body(section@));
    (data.len() as u64) <= (u32::MAX as u64)
}

/// True exactly when every section of the document can carry its measured
/// body length in its length field — all the encoder asks of a document.
pub fn doc_fits(vdf: &VDF) -> (r: bool)
    ensures
        r <==> sections_fit(vdf@.sections),
{
    let n = vdf.sections.len();
    for i in 0..n
        invariant
            n == vdf.sections@.len(),
            forall|j: int| 0 <= j < i ==> spec_body_len(#[trigger] vdf@.sections[j]) <= u32::MAX,
    {
        assert(vdf@.sections[i as int] == vdf.sections@[i as int]@);
        if !section_fits(&vdf.sections[i]) {
            return false;
        }
    }
    true
}

/// Writes one section. The body — fixed fields plus node tree — goes into a
/// scratch buffer first; its measured length becomes the length field, so
/// the declared and actual body lengths cannot disagree. The section's
/// stored `data_size` is not consulted.
pub fn write_vdf_section(out: &mut Vec<u8>, section: &VDFAppSection)
    requires
        spec_body_len(section@) <= u32::MAX,
    ensures
        final(out)@ == old(out)@ + spec_encode_section(section@),
{
    let mut app_id = u32_to_le_bytes(section.app_id);
    out.append(&mut app_id);
    let mut data: Vec<u8> = Vec::new();
    let mut info_state = u32_to_le_bytes(section.info_state);
    data.append(&mut info_state);
    let mut last_updated = u32_to_le_bytes(section.last_updated);
    data.append(&mut last_updated);
    let mut pics_token = u64_to_le_bytes(section.pics_token);
    data.append(&mut pics_token);
    push_bytes(&mut data, &section.sha1);
    push_bytes(&mut data, &section.binary_sha1);
    let mut change_number = u32_to_le_bytes(section.change_number);
    data.append(&mut change_number);
    write_vdf_app_nodes(&mut data, &section.nodes);
    assert(data@ =~= spec_encode_section_body(section@));
    let data_size = data.len() as u32;
    let mut size_bytes = u32_to_le_bytes(data_size);
    out.append(&mut size_bytes);
    out.append(&mut data);
    assert(old(out)@ + spec_u32_to_le_bytes(section.app_id) + spec_u32_to_le_bytes(
        spec_body_len(section@) as u32,
    ) + spec_encode_section_body(section@) =~= old(out)@ + spec_encode_section(section@));
}

/// Writes every section in order, then the four-zero-byte sentinel.
pub fn write_vdf_sections(out: &mut Vec<u8>, sections: &Vec<VDFAppSection>)
    requires
        sections_fit(sections_view(sections@)),
    ensures
        final(out)@ == old(out)@ + spec_encode_section_list(sections_view(sections@)) + spec_sentinel(),
{
    let n = sections.len();
    for i in 0..n
        invariant
            n == sections@.len(),
            sections_fit(sections_view(sections@)),
            out@ == old(out)@ + spec_encode_section_list(sections_view(sections@).take(i as int)),
    {
        assert(sections_view(sections@)[i as int] == sections@[i as int]@);
        write_vdf_section(out, &sections[i]);
        proof {
            let ghost views = sections_view(sections@);
            lemma_encode_section_list_concat(views.take(i as int), seq![views[i as int]]);
            lemma_encode_section_list_one(views[i as int]);
            assert(views.take(i as int) + seq![views[i as int]] =~= views.take(i + 1));
            assert(old(out)@ + spec_encode_section_list(views.take(i as int))
                + spec_encode_section(sections@[i as int]@) =~= old(out)@
                + spec_encode_section_list(views.take(i + 1)));
        }
    }
    let mut sentinel = u32_to_le_bytes(0);
    out.append(&mut sentinel);
    proof {
        let ghost views = sections_view(sections@);
        assert(views.take(n as int) =~= views);
        assert(old(out)@ + spec_encode_section_list(views) + spec_sentinel() =~= old(out)@
            + spec_encode_section_list(views) + spec_sentinel());
    }
}

/// Encodes a whole document: header, sections, sentinel.
pub fn write(out: &mut Vec<u8>, vdf: &VDF)
    requires
        sections_fit(vdf@.sections),
    ensures
        final(out)@ == old(out)@ + spec_encode_doc(vdf@),
{
    write_vdf_header(out, &vdf.header);
    write_vdf_sections(out, &vdf.sections);
    assert(old(out)@ + spec_u32_to_le_bytes(vdf.header.magic) + spec_u32_to_le_bytes(
        vdf.header.version,
    ) + spec_encode_section_list(sections_view(vdf.sections@)) + spec_sentinel() =~= old(out)@
        + spec_encode_doc(vdf@));
}

} // verus!
