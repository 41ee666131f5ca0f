//! The codec's global guarantees, proved once over the model: a well-formed
//! document decodes from its own encoding unchanged, length fields measure
//! their bodies exactly, the sentinel closes the section list in four bytes,
//! a wrong magic constant fails the whole decode, and every node list
//! contributes exactly one end-tag byte to its encoding.

use vstd::bytes::{
    lemma_auto_spec_u32_to_from_le_bytes, lemma_auto_spec_u64_to_from_le_bytes,
    spec_u32_from_le_bytes, spec_u32_to_le_bytes, spec_u64_to_le_bytes,
};
use vstd::prelude::*;

use crate::model::{
    spec_body_len, spec_encode_doc, spec_encode_node, spec_encode_node_list, spec_encode_nodes,
    spec_encode_section, spec_encode_section_body, spec_encode_section_list, spec_encode_str,
    spec_sentinel, wf_doc, wf_node, wf_nodes, wf_section, DocV, NodeV, SectionV, MAGIC,
    TAG_END, TAG_INT, TAG_SIMPLE, TAG_STR,
};
use crate::reader::{
    lemma_spec_parse_str_encode, spec_parse_header, spec_parse_node, spec_parse_node_int,
    spec_parse_node_simple, spec_parse_node_str, spec_parse_nodes, spec_parse_section,
    spec_parse_section_fields, spec_parse_sections, spec_parse_u32, spec_parse_u64, spec_read,
    ParseError,
};

verus! {

broadcast use vstd::seq::group_seq_axioms;

/// Splits "the bytes at `pos` read `a + b`" into its two halves.
proof fn lemma_starts_concat(input: Seq<u8>, pos: int, a: Seq<u8>, b: Seq<u8>)
    requires
        0 <= pos,
        pos + a.len() + b.len() <= input.len(),
        input.subrange(pos, pos + a.len() + b.len()) == a + b,
    ensures
        input.subrange(pos, pos + a.len()) == a,
        input.subrange(pos + a.len(), pos + a.len() + b.len()) == b,
{
    assert forall|j: int| 0 <= j < a.len() implies input.subrange(pos, pos + a.len())[j] == a[j] by {
        assert(input.subrange(pos, pos + a.len() + b.len())[j] == input[pos + j]);
        assert(input.subrange(pos, pos + a.len())[j] == input[pos + j]);
        assert((a + b)[j] == a[j]);
    }
    assert forall|j: int| 0 <= j < b.len() implies input.subrange(
        pos + a.len(),
        pos + a.len() + b.len(),
    )[j] == b[j] by {
        assert(input.subrange(pos, pos + a.len() + b.len())[a.len() + j] == input[pos + a.len()
            + j]);
        assert(input.subrange(pos + a.len(), pos + a.len() + b.len())[j] == input[pos + a.len()
            + j]);
        assert((a + b)[a.len() + j] == b[j]);
    }
    assert(input.subrange(pos, pos + a.len()) =~= a);
    assert(input.subrange(pos + a.len(), pos + a.len() + b.len()) =~= b);
}

/// Reading four bytes that encode `v` yields `v`.
proof fn lemma_parse_u32_encode(input: Seq<u8>, pos: int, v: u32)
    requires
        0 <= pos,
        pos + 4 <= input.len(),
        input.subrange(pos, pos + 4) == spec_u32_to_le_bytes(v),
    ensures
        spec_parse_u32(input, pos) == Ok::<_, ParseError>((v, pos + 4)),
{
    lemma_auto_spec_u32_to_from_le_bytes();
    assert(spec_u32_to_le_bytes(v).len() == 4);
}

/// Reading eight bytes that encode `v` yields `v`.
proof fn lemma_parse_u64_encode(input: Seq<u8>, pos: int, v: u64)
    requires
        0 <= pos,
        pos + 8 <= input.len(),
        input.subrange(pos, pos + 8) == spec_u64_to_le_bytes(v),
    ensures
        spec_parse_u64(input, pos) == Ok::<_, ParseError>((v, pos + 8)),
{
    lemma_auto_spec_u64_to_from_le_bytes();
    assert(spec_u64_to_le_bytes(v).len() == 8);
}

/// A node's encoding opens with its tag — never the end tag — and is at
/// least three bytes long.
proof fn lemma_encode_node_shape(n: NodeV)
    ensures
        spec_encode_node(n).len() >= 3,
        spec_encode_node(n)[0] == match n {
            NodeV::Simple { .. } => TAG_SIMPLE,
            NodeV::Str { .. } => TAG_STR,
            NodeV::Int { .. } => TAG_INT,
        },
        spec_encode_node(n)[0] != TAG_END,
{
    lemma_auto_spec_u32_to_from_le_bytes();
    match n {
        NodeV::Simple { name, children } => {
            assert(spec_encode_nodes(children).len() >= 1);
        },
        NodeV::Str { name, value } => {},
        NodeV::Int { name, value } => {},
    }
}

/// Parsing a node's encoding in place recovers exactly that node.
proof fn lemma_parse_encode_node(input: Seq<u8>, pos: int, n: NodeV)
    requires
        wf_node(n),
        0 <= pos,
        pos + spec_encode_node(n).len() <= input.len(),
        input.subrange(pos, pos + spec_encode_node(n).len()) == spec_encode_node(n),
    ensures
        spec_parse_node(input, pos) == Ok::<_, ParseError>((n, pos + spec_encode_node(n).len())),
    decreases n, 0int,
{
    let enc = spec_encode_node(n);
    lemma_encode_node_shape(n);
    assert(input[pos + 0] == enc[0]) by {
        assert(input.subrange(pos, pos + enc.len())[0] == input[pos + 0]);
    }
    match n {
        NodeV::Simple { name, children } => {
            let estr = spec_encode_str(name);
            let enodes = spec_encode_nodes(children);
            assert(enc =~= seq![TAG_SIMPLE] + (estr + enodes));
            lemma_starts_concat(input, pos, seq![TAG_SIMPLE], estr + enodes);
            lemma_starts_concat(input, pos + 1, estr, enodes);
            lemma_spec_parse_str_encode(input, pos + 1, name);
            let p1 = pos + 1 + estr.len();
            lemma_parse_encode_nodes(input, p1, children);
            assert(spec_parse_node_simple(input, pos + 1) == Ok::<_, ParseError>(
                (n, pos + enc.len()),
            ));
        },
        NodeV::Str { name, value } => {
            let estr = spec_encode_str(name);
            let evalue = spec_encode_str(value);
            assert(enc =~= seq![TAG_STR] + (estr + evalue));
            lemma_starts_concat(input, pos, seq![TAG_STR], estr + evalue);
            lemma_starts_concat(input, pos + 1, estr, evalue);
            lemma_spec_parse_str_encode(input, pos + 1, name);
            let p1 = pos + 1 + estr.len();
            lemma_spec_parse_str_encode(input, p1, value);
            assert(spec_parse_node_str(input, pos + 1) == Ok::<_, ParseError>(
                (n, pos + enc.len()),
            ));
        },
        NodeV::Int { name, value } => {
            let estr = spec_encode_str(name);
            let eint = spec_u32_to_le_bytes(value);
            lemma_auto_spec_u32_to_from_le_bytes();
            assert(enc =~= seq![TAG_INT] + (estr + eint));
            lemma_starts_concat(input, pos, seq![TAG_INT], estr + eint);
            lemma_starts_concat(input, pos + 1, estr, eint);
            lemma_spec_parse_str_encode(input, pos + 1, name);
            let p1 = pos + 1 + estr.len();
            lemma_parse_u32_encode(input, p1, value);
            assert(spec_parse_node_int(input, pos + 1) == Ok::<_, ParseError>(
                (n, pos + enc.len()),
            ));
        },
    }
}

/// Parsing a node list's encoding in place recovers exactly that list and
/// consumes its one end tag.
proof fn lemma_parse_encode_nodes(input: Seq<u8>, pos: int, ns: Seq<NodeV>)
    requires
        wf_nodes(ns),
        0 <= pos,
        pos + spec_encode_nodes(ns).len() <= input.len(),
        input.subrange(pos, pos + spec_encode_nodes(ns).len()) == spec_encode_nodes(ns),
    ensures
        spec_parse_nodes(input, pos) == (ns, pos + spec_encode_nodes(ns).len()),
    decreases ns, 1int,
{
    let enc = spec_encode_nodes(ns);
    assert(input[pos + 0] == enc[0]) by {
        assert(input.subrange(pos, pos + enc.len())[0] == input[pos + 0]);
    }
    if ns.len() == 0 {
        assert(enc =~= seq![TAG_END]);
        assert(input[pos] == TAG_END);
        assert(spec_parse_nodes(input, pos) == (Seq::<NodeV>::empty(), pos + 1));
        assert(ns =~= Seq::<NodeV>::empty());
    } else {
        let n0 = ns[0];
        let e0 = spec_encode_node(n0);
        let rest = ns.drop_first();
        let erest = spec_encode_nodes(rest);
        assert(spec_encode_node_list(ns) == e0 + spec_encode_node_list(rest));
        assert(enc =~= e0 + erest);
        lemma_starts_concat(input, pos, e0, erest);
        lemma_encode_node_shape(n0);
        assert(input[pos] == e0[0]) by {
            assert(input.subrange(pos, pos + e0.len())[0] == input[pos + 0]);
        }
        assert(input[pos] != TAG_END);
        lemma_parse_encode_node(input, pos, n0);
        let p1 = pos + e0.len();
        lemma_parse_encode_nodes(input, p1, rest);
        assert(seq![n0] + rest =~= ns);
    }
}

/// Parsing a section's encoding in place recovers exactly that section.
proof fn lemma_parse_encode_section(input: Seq<u8>, pos: int, s: SectionV)
    requires
        wf_section(s),
        0 <= pos,
        pos + spec_encode_section(s).len() <= input.len(),
        input.subrange(pos, pos + spec_encode_section(s).len()) == spec_encode_section(s),
    ensures
        spec_parse_section(input, pos) == Ok::<_, ParseError>(
            (s, pos + spec_encode_section(s).len()),
        ),
{
    lemma_auto_spec_u32_to_from_le_bytes();
    lemma_auto_spec_u64_to_from_le_bytes();
    let enc = spec_encode_section(s);
    let body = spec_encode_section_body(s);
    let eapp = spec_u32_to_le_bytes(s.app_id);
    let elen = spec_u32_to_le_bytes(spec_body_len(s) as u32);
    assert(enc =~= eapp + (elen + body));
    lemma_starts_concat(input, pos, eapp, elen + body);
    lemma_starts_concat(input, pos + 4, elen, body);
    lemma_parse_u32_encode(input, pos, s.app_id);
    lemma_parse_u32_encode(input, pos + 4, spec_body_len(s) as u32);
    let p2 = pos + 8;
    let size = spec_body_len(s) as u32;
    assert(size as int == body.len());
    let bseq = input.subrange(p2, p2 + size);
    assert(bseq == body);
    // the fixed fields inside the body
    let einfo = spec_u32_to_le_bytes(s.info_state);
    let elast = spec_u32_to_le_bytes(s.last_updated);
    let epics = spec_u64_to_le_bytes(s.pics_token);
    let echange = spec_u32_to_le_bytes(s.change_number);
    let enodes = spec_encode_nodes(s.nodes);
    assert(body =~= einfo + (elast + (epics + (s.sha1 + (s.binary_sha1 + (echange
        + enodes))))));
    assert(body.subrange(0, body.len() as int) =~= body);
    lemma_starts_concat(body, 0, einfo, elast + (epics + (s.sha1 + (s.binary_sha1 + (echange
        + enodes)))));
    lemma_starts_concat(body, 4, elast, epics + (s.sha1 + (s.binary_sha1 + (echange + enodes))));
    lemma_starts_concat(body, 8, epics, s.sha1 + (s.binary_sha1 + (echange + enodes)));
    lemma_starts_concat(body, 16, s.sha1, s.binary_sha1 + (echange + enodes));
    lemma_starts_concat(body, 36, s.binary_sha1, echange + enodes);
    lemma_starts_concat(body, 56, echange, enodes);
    lemma_parse_u32_encode(body, 0, s.info_state);
    lemma_parse_u32_encode(body, 4, s.last_updated);
    lemma_parse_u64_encode(body, 8, s.pics_token);
    lemma_parse_u32_encode(body, 56, s.change_number);
    lemma_parse_encode_nodes(body, 60, s.nodes);
    let parsed = spec_parse_section_fields(bseq, s.app_id, size);
    assert(parsed matches Ok(sec) && sec =~~= s) by {
        assert(body.subrange(16, 36) == s.sha1);
        assert(body.subrange(36, 56) == s.binary_sha1);
        assert(60 + enodes.len() == body.len());
    }
}

/// A section's encoding is at least eight bytes and never opens with the
/// sentinel when its identifier is not zero.
proof fn lemma_encode_section_shape(s: SectionV)
    requires
        wf_section(s),
    ensures
        spec_encode_section(s).len() >= 8,
        spec_encode_section(s).subrange(0, 4) == spec_u32_to_le_bytes(s.app_id),
{
    lemma_auto_spec_u32_to_from_le_bytes();
    assert(spec_encode_section(s).subrange(0, 4) =~= spec_u32_to_le_bytes(s.app_id));
}

/// Parsing a section list's encoding plus the sentinel recovers exactly
/// those sections and consumes exactly the sentinel's four bytes.
proof fn lemma_parse_encode_sections(input: Seq<u8>, pos: int, ss: Seq<SectionV>)
    requires
        forall|i: int| 0 <= i < ss.len() ==> wf_section(#[trigger] ss[i]),
        0 <= pos,
        pos + spec_encode_section_list(ss).len() + 4 <= input.len(),
        input.subrange(pos, pos + spec_encode_section_list(ss).len() + 4)
            == spec_encode_section_list(ss) + spec_sentinel(),
    ensures
        spec_parse_sections(input, pos) == (ss, pos + spec_encode_section_list(ss).len() + 4),
    decreases ss.len(),
{
    lemma_auto_spec_u32_to_from_le_bytes();
    if ss.len() == 0 {
        assert(spec_encode_section_list(ss) + spec_sentinel() =~= spec_sentinel());
        lemma_parse_u32_encode(input, pos, 0);
        assert(ss =~= Seq::<SectionV>::empty());
    } else {
        let s0 = ss[0];
        let e0 = spec_encode_section(s0);
        let rest = ss.drop_first();
        let erest = spec_encode_section_list(rest) + spec_sentinel();
        assert(spec_encode_section_list(ss) + spec_sentinel() =~= e0 + erest);
        lemma_starts_concat(input, pos, e0, erest);
        lemma_encode_section_shape(s0);
        // the first four bytes carry a non-zero identifier, not the sentinel
        assert(input.subrange(pos, pos + 4) == spec_u32_to_le_bytes(s0.app_id)) by {
            assert forall|j: int| 0 <= j < 4 implies input.subrange(pos, pos + 4)[j] == e0[j] by {
                assert(input.subrange(pos, pos + e0.len())[j] == input[pos + j]);
                assert(input.subrange(pos, pos + 4)[j] == input[pos + j]);
            }
            assert(input.subrange(pos, pos + 4) =~= e0.subrange(0, 4));
        }
        lemma_parse_u32_encode(input, pos, s0.app_id);
        assert(!(spec_parse_u32(input, pos) matches Ok((v, p1)) && v == 0));
        lemma_parse_encode_section(input, pos, s0);
        let p1 = pos + e0.len();
        assert(forall|i: int| 0 <= i < rest.len() ==> wf_section(#[trigger] rest[i]));
        lemma_parse_encode_sections(input, p1, rest);
        assert(seq![s0] + rest =~= ss);
    }
}

/// Round-trip: decoding the encoding of any well-formed document yields that
/// document back, exactly — opaque digest bytes included — and consumes the
/// whole encoding. Together with the contracts of `write` and `read`, which
/// tie the executable codec to `spec_encode_doc` and `spec_read`, this is
/// the round-trip guarantee for the executable pipeline as well.
pub proof fn lemma_round_trip(d: DocV)
    requires
        wf_doc(d),
    ensures
        spec_read(spec_encode_doc(d)) == Ok::<_, ParseError>(
            (d, spec_encode_doc(d).len() as int),
        ),
{
    lemma_auto_spec_u32_to_from_le_bytes();
    let input = spec_encode_doc(d);
    let emagic = spec_u32_to_le_bytes(d.header.magic);
    let eversion = spec_u32_to_le_bytes(d.header.version);
    let esections = spec_encode_section_list(d.sections) + spec_sentinel();
    assert(input =~= emagic + (eversion + esections));
    assert(input.subrange(0, input.len() as int) =~= input);
    lemma_starts_concat(input, 0, emagic, eversion + esections);
    lemma_starts_concat(input, 4, eversion, esections);
    lemma_parse_u32_encode(input, 0, d.header.magic);
    lemma_parse_u32_encode(input, 4, d.header.version);
    lemma_parse_encode_sections(input, 8, d.sections);
    assert(spec_parse_header(input, 0) matches Ok((h, p)) && h@ =~= d.header && p == 8);
}

/// Length correctness: in any section's encoding, the four length-field
/// bytes carry exactly the byte length of the body that follows them, and
/// the whole encoding is the eight prefix bytes plus that body.
pub proof fn lemma_length_correctness(s: SectionV)
    requires
        spec_body_len(s) <= u32::MAX,
    ensures
        spec_encode_section(s).subrange(4, 8) == spec_u32_to_le_bytes(spec_body_len(s) as u32),
        spec_encode_section(s).len() == 8 + spec_body_len(s),
        spec_u32_from_le_bytes(spec_encode_section(s).subrange(4, 8)) == spec_body_len(s),
{
    lemma_auto_spec_u32_to_from_le_bytes();
    assert(spec_encode_section(s).subrange(4, 8) =~= spec_u32_to_le_bytes(
        spec_body_len(s) as u32,
    ));
}

/// Sentinel termination: four zero bytes where a section's identifier is
/// expected end the section list, consuming exactly those four bytes.
pub proof fn lemma_sentinel_termination(input: Seq<u8>, pos: int)
    requires
        0 <= pos,
        pos + 4 <= input.len(),
        input.subrange(pos, pos + 4) == spec_sentinel(),
    ensures
        spec_parse_sections(input, pos) == (Seq::<SectionV>::empty(), pos + 4),
{
    lemma_auto_spec_u32_to_from_le_bytes();
    lemma_parse_u32_encode(input, pos, 0);
}

/// Bad magic: a document whose first four bytes decode to anything but the
/// magic constant fails to decode, with `BadMagic` and nothing else.
pub proof fn lemma_bad_magic(input: Seq<u8>)
    requires
        input.len() >= 4,
        spec_u32_from_le_bytes(input.subrange(0, 4)) != MAGIC,
    ensures
        spec_read(input) == Err::<(DocV, int), ParseError>(ParseError::BadMagic),
{
}

/// Number of node lists in one node's subtree: a container owns one list,
/// plus those of its descendants; leaves own none.
pub open spec fn spec_node_num_lists(n: NodeV) -> nat
    decreases n, 0int,
{
    match n {
        NodeV::Simple { name, children } => spec_nodes_num_lists(children),
        NodeV::Str { .. } => 0,
        NodeV::Int { .. } => 0,
    }
}

/// Number of node lists a list's encoding contains: itself, plus every list
/// inside its nodes.
pub open spec fn spec_nodes_num_lists(ns: Seq<NodeV>) -> nat
    decreases ns, 1int,
{
    if ns.len() == 0 {
        1
    } else {
        spec_node_num_lists(ns[0]) + spec_nodes_num_lists(ns.drop_first())
    }
}

/// Byte length of one node's encoding with every end tag left out.
pub open spec fn spec_node_payload_len(n: NodeV) -> nat
    decreases n, 0int,
{
    match n {
        NodeV::Simple { name, children } => 1 + name.len() + 1 + spec_nodes_payload_len(children),
        NodeV::Str { name, value } => 1 + name.len() + 1 + value.len() + 1,
        NodeV::Int { name, value } => 1 + name.len() + 1 + 4,
    }
}

/// Byte length of a list's encoding with every end tag left out.
pub open spec fn spec_nodes_payload_len(ns: Seq<NodeV>) -> nat
    decreases ns, 1int,
{
    if ns.len() == 0 {
        0
    } else {
        spec_node_payload_len(ns[0]) + spec_nodes_payload_len(ns.drop_first())
    }
}

/// One terminator per list: a node's encoding is its payload bytes plus
/// exactly one end-tag byte for each node list in its subtree.
pub proof fn lemma_one_end_tag_per_list_node(n: NodeV)
    ensures
        spec_encode_node(n).len() == spec_node_payload_len(n) + spec_node_num_lists(n),
    decreases n, 0int,
{
    match n {
        NodeV::Simple { name, children } => {
            lemma_one_end_tag_per_list(children);
        },
        NodeV::Str { .. } => {},
        NodeV::Int { .. } => {
            vstd::bytes::lemma_auto_spec_u32_to_from_le_bytes();
        },
    }
}

/// One terminator per list: re-encoding any node list produces exactly one
/// end-tag byte per node list, at every nesting depth — its encoded length
/// is its payload length plus its list count.
pub proof fn lemma_one_end_tag_per_list(ns: Seq<NodeV>)
    ensures
        spec_encode_nodes(ns).len() == spec_nodes_payload_len(ns) + spec_nodes_num_lists(ns),
    decreases ns, 1int,
{
    if ns.len() == 0 {
    } else {
        lemma_one_end_tag_per_list_node(ns[0]);
        lemma_one_end_tag_per_list(ns.drop_first());
        assert(spec_encode_nodes(ns) =~= spec_encode_node(ns[0]) + spec_encode_nodes(
            ns.drop_first(),
        ));
    }
}

} // verus!
