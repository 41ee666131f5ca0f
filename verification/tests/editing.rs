//! The tree-rewrite operations: filtering sections and the shipped patch.

use vdf_codec::reader::read;
use vdf_codec::updater::{
    append_to_container, bytes_eq, clone_node, clone_section, filter_sections,
    rewrite_section_nodes, steam_edit_app_node, update, update_app_node, update_app_section,
    ASSASSINS_CREED2_APP_ID,
};
use vdf_codec::vdf::{VDFAppNode, VDFAppSection, VDFHeader, VDF};
use vdf_codec::writer::write_vdf_section;

fn section_with(app_id: u32, nodes: Vec<VDFAppNode>) -> VDFAppSection {
    VDFAppSection {
        app_id,
        data_size: 0,
        info_state: 1,
        last_updated: 2,
        pics_token: 3,
        sha1: (0u8..20).collect(),
        binary_sha1: (20u8..40).collect(),
        change_number: 4,
        nodes,
    }
}

fn expected_steam_edit() -> VDFAppNode {
    VDFAppNode::Simple {
        name: b"steam_edit".to_vec(),
        children: vec![
            VDFAppNode::Int { name: b"is_hidden".to_vec(), value: 1 },
            VDFAppNode::Str {
                name: b"base_name".to_vec(),
                value: b"Assassin's Creed 2 - Mac".to_vec(),
            },
            VDFAppNode::Str { name: b"base_type".to_vec(), value: b"DLC".to_vec() },
        ],
    }
}

#[test]
fn steam_edit_template_shape() {
    assert_eq!(steam_edit_app_node(), expected_steam_edit());
}

#[test]
fn filter_keeps_only_matching_sections_in_order() {
    let vdf = VDF {
        header: VDFHeader { magic: 0x07564427, version: 1 },
        sections: vec![
            section_with(1, vec![]),
            section_with(33362, vec![VDFAppNode::Int { name: b"n".to_vec(), value: 9 }]),
        ],
    };
    let kept = filter_sections(&vdf, 33362);
    assert_eq!(kept.header, vdf.header);
    assert_eq!(kept.sections.len(), 1);
    assert_eq!(kept.sections[0], vdf.sections[1]);

    // re-encoding the retained section is byte-identical to its original encoding
    let mut original: Vec<u8> = Vec::new();
    write_vdf_section(&mut original, &vdf.sections[1]);
    let mut retained: Vec<u8> = Vec::new();
    write_vdf_section(&mut retained, &kept.sections[0]);
    assert_eq!(retained, original);
}

#[test]
fn filter_can_keep_nothing() {
    let vdf = VDF {
        header: VDFHeader { magic: 0x07564427, version: 1 },
        sections: vec![section_with(1, vec![]), section_with(2, vec![])],
    };
    let kept = filter_sections(&vdf, 33362);
    assert!(kept.sections.is_empty());
}

#[test]
fn patch_appends_to_appinfo_container() {
    let node = VDFAppNode::Simple {
        name: b"appinfo".to_vec(),
        children: vec![VDFAppNode::Int { name: b"state".to_vec(), value: 4 }],
    };
    let patched = update_app_node(&node);
    assert_eq!(
        patched,
        VDFAppNode::Simple {
            name: b"appinfo".to_vec(),
            children: vec![
                VDFAppNode::Int { name: b"state".to_vec(), value: 4 },
                expected_steam_edit(),
            ],
        }
    );
}

#[test]
fn patch_leaves_other_nodes_unchanged() {
    let other = VDFAppNode::Simple {
        name: b"common".to_vec(),
        children: vec![VDFAppNode::Simple { name: b"appinfo".to_vec(), children: vec![] }],
    };
    // the match is shallow: a nested appinfo container is not touched
    assert_eq!(update_app_node(&other), other);
    let leaf = VDFAppNode::Str { name: b"appinfo".to_vec(), value: b"x".to_vec() };
    assert_eq!(update_app_node(&leaf), leaf);
}

#[test]
fn rewrite_section_nodes_touches_only_the_node_list() {
    let section = section_with(
        33362,
        vec![
            VDFAppNode::Simple { name: b"target".to_vec(), children: vec![] },
            VDFAppNode::Int { name: b"keep".to_vec(), value: 0 },
        ],
    );
    let extra = VDFAppNode::Int { name: b"new".to_vec(), value: 7 };
    let r = rewrite_section_nodes(&section, &b"target".to_vec(), &extra);
    assert_eq!(r.app_id, section.app_id);
    assert_eq!(r.sha1, section.sha1);
    assert_eq!(r.binary_sha1, section.binary_sha1);
    assert_eq!(r.change_number, section.change_number);
    assert_eq!(
        r.nodes,
        vec![
            VDFAppNode::Simple { name: b"target".to_vec(), children: vec![extra] },
            VDFAppNode::Int { name: b"keep".to_vec(), value: 0 },
        ]
    );
}

#[test]
fn update_filters_and_patches() {
    let vdf = VDF {
        header: VDFHeader { magic: 0x07564427, version: 1 },
        sections: vec![
            section_with(1, vec![VDFAppNode::Simple { name: b"appinfo".to_vec(), children: vec![] }]),
            section_with(
                ASSASSINS_CREED2_APP_ID,
                vec![VDFAppNode::Simple { name: b"appinfo".to_vec(), children: vec![] }],
            ),
        ],
    };
    let updated = update(&vdf);
    assert_eq!(updated.header, vdf.header);
    assert_eq!(updated.sections.len(), 1);
    assert_eq!(updated.sections[0].app_id, ASSASSINS_CREED2_APP_ID);
    assert_eq!(
        updated.sections[0].nodes,
        vec![VDFAppNode::Simple {
            name: b"appinfo".to_vec(),
            children: vec![expected_steam_edit()],
        }]
    );
}

#[test]
fn update_section_only_touches_the_target_app() {
    let other = section_with(5, vec![VDFAppNode::Simple { name: b"appinfo".to_vec(), children: vec![] }]);
    assert_eq!(update_app_section(&other), other);
}

#[test]
fn patched_document_still_round_trips() {
    let vdf = VDF {
        header: VDFHeader { magic: 0x07564427, version: 1 },
        sections: vec![section_with(
            ASSASSINS_CREED2_APP_ID,
            vec![VDFAppNode::Simple { name: b"appinfo".to_vec(), children: vec![] }],
        )],
    };
    let updated = update(&vdf);
    let mut out: Vec<u8> = Vec::new();
    vdf_codec::writer::write(&mut out, &updated);
    let (decoded, consumed) = read(&out).unwrap();
    assert_eq!(consumed, out.len());
    assert_eq!(decoded.sections.len(), 1);
    assert_eq!(decoded.sections[0].nodes, updated.sections[0].nodes);
}

#[test]
fn clone_helpers_copy_deeply() {
    let node = VDFAppNode::Simple {
        name: b"a".to_vec(),
        children: vec![VDFAppNode::Str { name: b"b".to_vec(), value: b"c".to_vec() }],
    };
    assert_eq!(clone_node(&node), node);
    let section = section_with(8, vec![node]);
    assert_eq!(clone_section(&section), section);
    assert!(bytes_eq(&b"xy".to_vec(), &b"xy".to_vec()));
    assert!(!bytes_eq(&b"xy".to_vec(), &b"xz".to_vec()));
}

#[test]
fn append_to_container_is_parameterized() {
    let node = VDFAppNode::Simple { name: b"any".to_vec(), children: vec![] };
    let extra = VDFAppNode::Int { name: b"i".to_vec(), value: 1 };
    let patched = append_to_container(&node, &b"any".to_vec(), &extra);
    assert_eq!(
        patched,
        VDFAppNode::Simple { name: b"any".to_vec(), children: vec![extra] }
    );
}
