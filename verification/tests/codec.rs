//! Decoding and encoding against hand-written byte images.

use vdf_codec::reader::{
    matches_bytes, parse_magic, parse_take_n, parse_u32le, parse_u64le, parse_vdf_app_node,
    parse_vdf_app_nodes, parse_vdf_app_sections, parse_vdf_header, parse_vdf_str, read,
    ParseError,
};
use vdf_codec::vdf::{VDFAppNode, VDFAppSection, VDFHeader, VDF};
use vdf_codec::writer::{
    doc_fits, section_fits, write_vdf_app_node, write_vdf_app_nodes, write_vdf_header,
    write_vdf_section, write_vdf_str,
};

fn zero_section(app_id: u32, nodes: Vec<VDFAppNode>) -> VDFAppSection {
    VDFAppSection {
        app_id,
        data_size: 0,
        info_state: 0,
        last_updated: 0,
        pics_token: 0,
        sha1: vec![0u8; 20],
        binary_sha1: vec![0u8; 20],
        change_number: 0,
        nodes,
    }
}

/// The byte image of a document with header `(0x07564427, 1)`, one section
/// with app_id 1, all scalars and digests zero, and an empty node list.
fn minimal_bytes() -> Vec<u8> {
    let mut b: Vec<u8> = Vec::new();
    b.extend_from_slice(&[0x27, 0x44, 0x56, 0x07]); // magic
    b.extend_from_slice(&[0x01, 0x00, 0x00, 0x00]); // version
    b.extend_from_slice(&[0x01, 0x00, 0x00, 0x00]); // app_id
    b.extend_from_slice(&[0x3d, 0x00, 0x00, 0x00]); // body length: 60 + 1
    b.extend_from_slice(&[0u8; 60]); // scalar fields and digests
    b.push(0x08); // empty node list: just the end tag
    b.extend_from_slice(&[0x00, 0x00, 0x00, 0x00]); // end-of-sections sentinel
    b
}

#[test]
fn minimal_example_decodes() {
    let bytes = minimal_bytes();
    let (vdf, consumed) = read(&bytes).unwrap();
    assert_eq!(consumed, bytes.len());
    assert_eq!(vdf.header, VDFHeader { magic: 0x07564427, version: 1 });
    assert_eq!(vdf.sections.len(), 1);
    let s = &vdf.sections[0];
    assert_eq!(s.app_id, 1);
    assert_eq!(s.data_size, 61);
    assert_eq!(s.info_state, 0);
    assert_eq!(s.last_updated, 0);
    assert_eq!(s.pics_token, 0);
    assert_eq!(s.sha1, vec![0u8; 20]);
    assert_eq!(s.binary_sha1, vec![0u8; 20]);
    assert_eq!(s.change_number, 0);
    assert!(s.nodes.is_empty());
}

#[test]
fn minimal_example_reencodes_byte_identical() {
    let bytes = minimal_bytes();
    let (vdf, _) = read(&bytes).unwrap();
    assert!(doc_fits(&vdf));
    let mut out: Vec<u8> = Vec::new();
    vdf_codec::writer::write(&mut out, &vdf);
    assert_eq!(out, bytes);
}

#[test]
fn round_trip_nested_document() {
    let tree = VDFAppNode::Simple {
        name: b"appinfo".to_vec(),
        children: vec![
            VDFAppNode::Str { name: b"name".to_vec(), value: b"Some Game".to_vec() },
            VDFAppNode::Simple {
                name: b"extended".to_vec(),
                children: vec![
                    VDFAppNode::Int { name: b"depot".to_vec(), value: 42 },
                    VDFAppNode::Simple { name: b"empty".to_vec(), children: vec![] },
                ],
            },
            VDFAppNode::Int { name: b"state".to_vec(), value: 4 },
        ],
    };
    let mut section = zero_section(33362, vec![tree]);
    section.info_state = 2;
    section.last_updated = 1234567;
    section.pics_token = 0xdead_beef_cafe_f00d;
    section.sha1 = (0u8..20).collect();
    section.binary_sha1 = (100u8..120).collect();
    section.change_number = 77;
    let mut plain = zero_section(7, vec![]);
    plain.change_number = 5;
    let vdf = VDF { header: VDFHeader { magic: 0x07564427, version: 1 }, sections: vec![section, plain] };

    let mut out: Vec<u8> = Vec::new();
    vdf_codec::writer::write(&mut out, &vdf);
    let (decoded, consumed) = read(&out).unwrap();
    assert_eq!(consumed, out.len());
    // data_size is recomputed by the encoder, so patch it for the comparison
    let mut expected = vdf;
    expected.sections[0].data_size = {
        let mut body: Vec<u8> = Vec::new();
        write_vdf_section(&mut body, &expected.sections[0]);
        (body.len() - 8) as u32
    };
    expected.sections[1].data_size = 61;
    assert_eq!(decoded, expected);
}

#[test]
fn length_field_measures_body_exactly() {
    let section = zero_section(
        9,
        vec![VDFAppNode::Str { name: b"k".to_vec(), value: b"v".to_vec() }],
    );
    let mut out: Vec<u8> = Vec::new();
    write_vdf_section(&mut out, &section);
    let len_field = u32::from_le_bytes([out[4], out[5], out[6], out[7]]) as usize;
    assert_eq!(len_field, out.len() - 8);
    // fixed fields (60) + tag + "k\0" + "v\0" + end tag
    assert_eq!(len_field, 60 + 1 + 2 + 2 + 1);
}

#[test]
fn sentinel_ends_section_list_consuming_four_bytes() {
    // sentinel followed by trailing garbage: the garbage is never touched
    let bytes = [0x00, 0x00, 0x00, 0x00, 0xAA, 0xBB];
    let (sections, pos) = parse_vdf_app_sections(&bytes, 0);
    assert!(sections.is_empty());
    assert_eq!(pos, 4);
}

#[test]
fn bad_magic_is_rejected() {
    let mut bytes = minimal_bytes();
    bytes[0] = 0x28;
    assert_eq!(read(&bytes), Err(ParseError::BadMagic));
}

#[test]
fn truncated_header_is_rejected() {
    assert_eq!(read(&[0x27, 0x44, 0x56, 0x07]), Err(ParseError::Truncated));
    assert_eq!(read(&[]), Err(ParseError::Truncated));
}

#[test]
fn unterminated_string_is_reported() {
    assert_eq!(parse_vdf_str(&[b'a', b'b'], 0), Err(ParseError::UnterminatedString));
    let ok = parse_vdf_str(&[b'a', b'b', 0, b'c'], 0).unwrap();
    assert_eq!(ok, (b"ab".to_vec(), 3));
    // an empty string is just a null byte
    assert_eq!(parse_vdf_str(&[0], 0).unwrap(), (Vec::new(), 1));
}

#[test]
fn unknown_tag_is_reported() {
    assert_eq!(parse_vdf_app_node(&[9, b'x', 0], 0), Err(ParseError::UnknownTag));
    assert_eq!(parse_vdf_app_node(&[], 0), Err(ParseError::Truncated));
}

#[test]
fn malformed_node_list_keeps_prefix() {
    // one good string node, then an unknown tag: the list stops silently
    let mut bytes = vec![0x01, b'k', 0, b'v', 0];
    bytes.push(0x77);
    let (nodes, pos) = parse_vdf_app_nodes(&bytes, 0);
    assert_eq!(nodes, vec![VDFAppNode::Str { name: b"k".to_vec(), value: b"v".to_vec() }]);
    assert_eq!(pos, 5);
}

#[test]
fn malformed_trailing_section_keeps_prefix() {
    // a full minimal document, then extra garbage instead of more sections
    let mut bytes = minimal_bytes();
    bytes.truncate(bytes.len() - 4); // drop the sentinel
    bytes.extend_from_slice(&[0x02, 0x00, 0x00, 0x00, 0xFF, 0xFF, 0xFF, 0x7F]); // impossible length
    let (vdf, _) = read(&bytes).unwrap();
    assert_eq!(vdf.sections.len(), 1);
    assert_eq!(vdf.sections[0].app_id, 1);
}

#[test]
fn one_end_tag_per_list_at_every_depth() {
    let node = VDFAppNode::Simple {
        name: b"a".to_vec(),
        children: vec![
            VDFAppNode::Simple { name: b"b".to_vec(), children: vec![] },
            VDFAppNode::Int { name: b"c".to_vec(), value: 3 },
        ],
    };
    let mut out: Vec<u8> = Vec::new();
    write_vdf_app_node(&mut out, &node);
    // tag a\0 ( tag b\0 (end) tag c\0 iiii end )
    let expected = vec![
        0x00, b'a', 0x00, // container a
        0x00, b'b', 0x00, 0x08, // container b: its own single end tag
        0x02, b'c', 0x00, 0x03, 0x00, 0x00, 0x00, // int c = 3
        0x08, // end of a's list
    ];
    assert_eq!(out, expected);

    let mut list: Vec<u8> = Vec::new();
    write_vdf_app_nodes(&mut list, &vec![node]);
    // the outermost list adds exactly one more end tag
    assert_eq!(list.len(), expected.len() + 1);
    assert_eq!(*list.last().unwrap(), 0x08);
}

#[test]
fn primitive_parsers_read_little_endian() {
    let bytes = [0x78, 0x56, 0x34, 0x12, 0xEF, 0xCD, 0xAB, 0x89];
    assert_eq!(parse_u32le(&bytes, 0).unwrap(), (0x12345678, 4));
    assert_eq!(parse_u32le(&bytes, 4).unwrap(), (0x89ABCDEF, 8));
    assert_eq!(parse_u32le(&bytes, 6), Err(ParseError::Truncated));
    assert_eq!(parse_u64le(&bytes, 0).unwrap(), (0x89ABCDEF_12345678, 8));
    assert_eq!(parse_u64le(&bytes, 1), Err(ParseError::Truncated));
}

#[test]
fn take_n_and_matches_bytes() {
    let bytes = [1u8, 2, 3, 4, 5];
    let (taken, pos) = parse_take_n(&bytes, 1, 3).unwrap();
    assert_eq!(taken, &[2, 3, 4]);
    assert_eq!(pos, 4);
    assert_eq!(parse_take_n(&bytes, 3, 3), Err(ParseError::Truncated));
    assert!(matches_bytes(&bytes, 1, &[2, 3]));
    assert!(!matches_bytes(&bytes, 1, &[2, 4]));
    assert!(!matches_bytes(&bytes, 4, &[5, 6]));
}

#[test]
fn magic_and_header_parsing() {
    let bytes = [0x27, 0x44, 0x56, 0x07, 0x02, 0x00, 0x00, 0x00];
    assert_eq!(parse_magic(&bytes, 0, 0x07564427).unwrap(), (0x07564427, 4));
    assert_eq!(parse_magic(&bytes, 4, 0x07564427), Err(ParseError::BadMagic));
    let (header, pos) = parse_vdf_header(&bytes, 0).unwrap();
    assert_eq!(header, VDFHeader { magic: 0x07564427, version: 2 });
    assert_eq!(pos, 8);
}

#[test]
fn header_and_string_writers() {
    let mut out: Vec<u8> = Vec::new();
    write_vdf_header(&mut out, &VDFHeader { magic: 0x07564427, version: 3 });
    assert_eq!(out, vec![0x27, 0x44, 0x56, 0x07, 0x03, 0x00, 0x00, 0x00]);
    let mut s: Vec<u8> = Vec::new();
    write_vdf_str(&mut s, &b"hi".to_vec());
    assert_eq!(s, vec![b'h', b'i', 0]);
}

#[test]
fn section_fits_accepts_ordinary_sections() {
    let section = zero_section(3, vec![]);
    assert!(section_fits(&section));
}
