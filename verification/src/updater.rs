//! Pure tree-rewrite operations over a decoded document: keep only the
//! sections of one application, and append a child to every top-level
//! container of a given name. Nothing is edited in place; every operation
//! builds a new value. The shipped patch instance targets one application's
//! `appinfo` container and appends a fixed `steam_edit` template.

use vstd::prelude::*;
use vstd::slice::slice_to_vec;
use vstd::string::StringSliceAdditionalSpecFns;

use crate::model::{DocV, NodeV, SectionV};
use crate::vdf::{
    lemma_nodes_view_push, lemma_sections_view_push, lemma_view_simple, nodes_view, sections_view,
    VDFAppNode, VDFAppSection, VDF,
};

verus! {

broadcast use vstd::seq::group_seq_axioms, vstd::std_specs::vec::axiom_vec_index_decreases;

/// The application whose sections the shipped patch keeps and edits.
pub const ASSASSINS_CREED2_APP_ID: u32 = 33362;

/// Name of the container the shipped patch looks for.
pub open spec fn spec_appinfo_name() -> Seq<u8> {
    ("appinfo").spec_bytes()
}

/// The fixed template the shipped patch appends: a `steam_edit` container
/// with one integer flag and two string values.
pub open spec fn spec_steam_edit_node() -> NodeV {
    NodeV::Simple {
        name: ("steam_edit").spec_bytes(),
        children: seq![
            NodeV::Int { name: ("is_hidden").spec_bytes(), value: 1 },
            NodeV::Str {
                name: ("base_name").spec_bytes(),
                value: ("Assassin's Creed 2 - Mac").spec_bytes(),
            },
            NodeV::Str { name: ("base_type").spec_bytes(), value: ("DLC").spec_bytes() },
        ],
    }
}

/// What appending `extra` to a matching container does to one node: a
/// container named `target` gains `extra` as its last child; every other
/// node — containers of other names, their children, leaves — is unchanged.
/// The match is shallow: children are never searched for further matches.
pub open spec fn spec_append_child(n: NodeV, target: Seq<u8>, extra: NodeV) -> NodeV {
    match n {
        NodeV::Simple { name, children } => if name == target {
            NodeV::Simple { name, children: children.push(extra) }
        } else {
            n
        },
        _ => n,
    }
}

/// The rewrite applied to each top-level node of a list, in order.
pub open spec fn spec_rewrite_nodes(ns: Seq<NodeV>, target: Seq<u8>, extra: NodeV) -> Seq<
    NodeV,
> {
    ns.map_values(|n: NodeV| spec_append_child(n, target, extra))
}

/// The sections of `ss` whose identifier is `app_id`, in their original
/// order.
pub open spec fn spec_filter_sections(ss: Seq<SectionV>, app_id: u32) -> Seq<SectionV>
    decreases ss.len(),
{
    if ss.len() == 0 {
        Seq::empty()
    } else {
        let rest = spec_filter_sections(ss.drop_first(), app_id);
        if ss[0].app_id == app_id {
            seq![ss[0]] + rest
        } else {
            rest
        }
    }
}

/// Filtering distributes over concatenation.
proof fn lemma_filter_sections_concat(a: Seq<SectionV>, b: Seq<SectionV>, app_id: u32)
    ensures
        spec_filter_sections(a + b, app_id) == spec_filter_sections(a, app_id)
            + spec_filter_sections(b, app_id),
    decreases a.len(),
{
    if a.len() == 0 {
        assert(a + b =~= b);
        assert(spec_filter_sections(a, app_id) + spec_filter_sections(b, app_id)
            =~= spec_filter_sections(b, app_id));
    } else {
        assert((a + b).drop_first() =~= a.drop_first() + b);
        lemma_filter_sections_concat(a.drop_first(), b, app_id);
        assert(spec_filter_sections(a + b, app_id) =~= spec_filter_sections(a, app_id)
            + spec_filter_sections(b, app_id));
    }
}

/// Every section the filter keeps carries the asked-for identifier and is
/// one of the input's section values, unchanged — so re-encoding a retained
/// section yields exactly the bytes its original encoding had.
pub proof fn lemma_filter_sections_members(ss: Seq<SectionV>, app_id: u32)
    ensures
        forall|i: int|
            0 <= i < spec_filter_sections(ss, app_id).len() ==> {
                &&& (#[trigger] spec_filter_sections(ss, app_id)[i]).app_id == app_id
                &&& ss.contains(spec_filter_sections(ss, app_id)[i])
            },
    decreases ss.len(),
{
    if ss.len() > 0 {
        let kept = spec_filter_sections(ss, app_id);
        let rest = spec_filter_sections(ss.drop_first(), app_id);
        lemma_filter_sections_members(ss.drop_first(), app_id);
        assert forall|i: int| 0 <= i < kept.len() implies {
            &&& (#[trigger] kept[i]).app_id == app_id
            &&& ss.contains(kept[i])
        } by {
            if ss[0].app_id == app_id && i == 0 {
                assert(ss.contains(ss[0]));
            } else {
                let k = if ss[0].app_id == app_id {
                    i - 1
                } else {
                    i
                };
                assert(rest[k] == kept[i]);
                let j = choose|j: int| 0 <= j < ss.drop_first().len() && ss.drop_first()[j]
                    == rest[k];
                assert(ss[j + 1] == rest[k]);
            }
        }
    }
}

/// True exactly when the two byte vectors hold the same bytes.
pub fn bytes_eq(a: &Vec<u8>, b: &Vec<u8>) -> (r: bool)
    ensures
        r <==> a@ == b@,
{
    if a.len() != b.len() {
        proof {
            assert(a@ != b@);
        }
        return false;
    }
    let n = a.len();
    for i in 0..n
        invariant
            n == a@.len() == b@.len(),
            forall|j: int| 0 <= j < i ==> a@[j] == b@[j],
    {
        if a[i] != b[i] {
            return false;
        }
    }
    assert(a@ =~= b@);
    true
}

/// A deep copy of a byte string.
fn clone_bytes(v: &Vec<u8>) -> (r: Vec<u8>)
    ensures
        r@ == v@,
{
    slice_to_vec(v.as_slice())
}

/// A deep copy of one node.
pub fn clone_node(node: &VDFAppNode) -> (r: VDFAppNode)
    ensures
        r@ == node@,
    decreases *node, 0int,
{
    match node {
        VDFAppNode::Simple { name, children } => {
            let r = VDFAppNode::Simple {
                name: clone_bytes(name),
                children: clone_nodes(children),
            };
            proof {
                if let VDFAppNode::Simple { name: rn, children: rc } = &r {
                    lemma_view_simple(*rn, *rc);
                }
                lemma_view_simple(*name, *children);
            }
            r
        },
        VDFAppNode::Str { name, value } => VDFAppNode::Str {
            name: clone_bytes(name),
            value: clone_bytes(value),
        },
        VDFAppNode::Int { name, value } => VDFAppNode::Int {
            name: clone_bytes(name),
            value: *value,
        },
    }
}

/// A deep copy of a node vector.
pub fn clone_nodes(nodes: &Vec<VDFAppNode>) -> (r: Vec<VDFAppNode>)
    ensures
        nodes_view(r@) == nodes_view(nodes@),
        r@.len() == nodes@.len(),
    decreases *nodes, 1int,
{
    let mut out: Vec<VDFAppNode> = Vec::new();
    let n = nodes.len();
    for i in 0..n
        invariant
            n == nodes@.len(),
            out@.len() == i,
            nodes_view(out@) == nodes_view(nodes@).take(i as int),
        decreases n - i,
    {
        let c = clone_node(&nodes[i]);
        proof {
            lemma_nodes_view_push(out@, c);
            assert(nodes_view(out@).push(nodes@[i as int]@) =~= nodes_view(nodes@).take(i + 1));
        }
        out.push(c);
    }
    assert(nodes_view(nodes@).take(n as int) =~= nodes_view(nodes@));
    out
}

/// A deep copy of one section.
pub fn clone_section(section: &VDFAppSection) -> (r: VDFAppSection)
    ensures
        r@ == section@,
{
    VDFAppSection {
        app_id: section.app_id,
        data_size: section.data_size,
        info_state: section.info_state,
        last_updated: section.last_updated,
        pics_token: section.pics_token,
        sha1: clone_bytes(&section.sha1),
        binary_sha1: clone_bytes(&section.binary_sha1),
        change_number: section.change_number,
        nodes: clone_nodes(&section.nodes),
    }
}

/// Applies the append-to-container rewrite to one node: a container named
/// `target_name` gets a copy of `extra` appended after its existing
/// children; any other node is returned as an unchanged copy.
pub fn append_to_container(node: &VDFAppNode, target_name: &Vec<u8>, extra: &VDFAppNode) -> (r:
    VDFAppNode)
    ensures
        r@ == spec_append_child(node@, target_name@, extra@),
{
    match node {
        VDFAppNode::Simple { name, children } => {
            if bytes_eq(name, target_name) {
                let mut new_children = clone_nodes(children);
                let c = clone_node(extra);
                proof {
                    lemma_nodes_view_push(new_children@, c);
                }
                new_children.push(c);
                let r = VDFAppNode::Simple { name: clone_bytes(name), children: new_children };
                proof {
                    if let VDFAppNode::Simple { name: rn, children: rc } = &r {
                        lemma_view_simple(*rn, *rc);
                    }
                    lemma_view_simple(*name, *children);
                }
                r
            } else {
                let r = clone_node(node);
                proof {
                    lemma_view_simple(*name, *children);
                }
                r
            }
        },
        _ => clone_node(node),
    }
}

/// Applies the append-to-container rewrite to each top-level node of the
/// section's list — never descending into children — and passes every other
/// section field through unchanged.
pub fn rewrite_section_nodes(section: &VDFAppSection, target_name: &Vec<u8>, extra: &VDFAppNode)
    -> (r: VDFAppSection)
    ensures
        r@.nodes == spec_rewrite_nodes(section@.nodes, target_name@, extra@),
        r@.app_id == section@.app_id,
        r@.data_size == section@.data_size,
        r@.info_state == section@.info_state,
        r@.last_updated == section@.last_updated,
        r@.pics_token == section@.pics_token,
        r@.sha1 == section@.sha1,
        r@.binary_sha1 == section@.binary_sha1,
        r@.change_number == section@.change_number,
{
    let mut new_nodes: Vec<VDFAppNode> = Vec::new();
    let n = section.nodes.len();
    for i in 0..n
        invariant
            n == section.nodes@.len(),
            nodes_view(new_nodes@) == spec_rewrite_nodes(
                nodes_view(section.nodes@).take(i as int),
                target_name@,
                extra@,
            ),
    {
        let r = append_to_container(&section.nodes[i], target_name, extra);
        proof {
            lemma_nodes_view_push(new_nodes@, r);
            assert(nodes_view(new_nodes@).push(r@) =~= spec_rewrite_nodes(
                nodes_view(section.nodes@).take(i + 1),
                target_name@,
                extra@,
            ));
        }
        new_nodes.push(r);
    }
    proof {
        assert(nodes_view(section.nodes@).take(n as int) =~= nodes_view(section.nodes@));
    }
    VDFAppSection {
        app_id: section.app_id,
        data_size: section.data_size,
        info_state: section.info_state,
        last_updated: section.last_updated,
        pics_token: section.pics_token,
        sha1: clone_bytes(&section.sha1),
        binary_sha1: clone_bytes(&section.binary_sha1),
        change_number: section.change_number,
        nodes: new_nodes,
    }
}

/// Keeps the header and exactly the sections whose identifier is `app_id`,
/// in their original order; every kept section is an unchanged copy, so its
/// re-encoding is byte-identical to its original encoding.
pub fn filter_sections(vdf: &VDF, app_id: u32) -> (r: VDF)
    ensures
        r@.header == vdf@.header,
        r@.sections == spec_filter_sections(vdf@.sections, app_id),
{
    let mut kept: Vec<VDFAppSection> = Vec::new();
    let n = vdf.sections.len();
    for i in 0..n
        invariant
            n == vdf.sections@.len(),
            sections_view(kept@) == spec_filter_sections(
                sections_view(vdf.sections@).take(i as int),
                app_id,
            ),
    {
        proof {
            reveal_with_fuel(spec_filter_sections, 2);
            let ghost views = sections_view(vdf.sections@);
            assert(views[i as int] == vdf.sections@[i as int]@);
            lemma_filter_sections_concat(views.take(i as int), seq![views[i as int]], app_id);
            assert(views.take(i as int) + seq![views[i as int]] =~= views.take(i + 1));
            assert(seq![views[i as int]].drop_first() =~= Seq::<SectionV>::empty());
        }
        if vdf.sections[i].app_id == app_id {
            let c = clone_section(&vdf.sections[i]);
            proof {
                lemma_sections_view_push(kept@, c);
                assert(sections_view(kept@).push(c@) =~= spec_filter_sections(
                    sections_view(vdf.sections@).take(i + 1),
                    app_id,
                ));
            }
            kept.push(c);
        } else {
            proof {
                assert(sections_view(kept@) =~= spec_filter_sections(
                    sections_view(vdf.sections@).take(i + 1),
                    app_id,
                ));
            }
        }
    }
    proof {
        assert(sections_view(vdf.sections@).take(n as int) =~= sections_view(vdf.sections@));
    }
    VDF { header: vdf.header, sections: kept }
}

/// Builds the fixed `steam_edit` template node.
pub fn steam_edit_app_node() -> (r: VDFAppNode)
    ensures
        r@ == spec_steam_edit_node(),
{
    let is_hidden = VDFAppNode::Int { name: str_bytes("is_hidden"), value: 1 };
    let base_name = VDFAppNode::Str {
        name: str_bytes("base_name"),
        value: str_bytes("Assassin's Creed 2 - Mac"),
    };
    let base_type = VDFAppNode::Str { name: str_bytes("base_type"), value: str_bytes("DLC") };
    let mut children: Vec<VDFAppNode> = Vec::new();
    proof {
        lemma_nodes_view_push(children@, is_hidden);
    }
    children.push(is_hidden);
    proof {
        lemma_nodes_view_push(children@, base_name);
    }
    children.push(base_name);
    proof {
        lemma_nodes_view_push(children@, base_type);
    }
    children.push(base_type);
    let r = VDFAppNode::Simple { name: str_bytes("steam_edit"), children };
    proof {
        if let VDFAppNode::Simple { name: rn, children: rc } = &r {
            lemma_view_simple(*rn, *rc);
            assert(nodes_view(rc@) =~= spec_steam_edit_node()->Simple_children);
        }
    }
    r
}

/// The bytes of a string literal as an owned vector.
fn str_bytes(s: &str) -> (r: Vec<u8>)
    ensures
        r@ == s.spec_bytes(),
{
    slice_to_vec(s.as_bytes())
}

/// The shipped rewrite of one node: appends the `steam_edit` template to a
/// top-level container named `appinfo`, and returns every other node
/// unchanged.
pub fn update_app_node(node: &VDFAppNode) -> (r: VDFAppNode)
    ensures
        r@ == spec_append_child(node@, spec_appinfo_name(), spec_steam_edit_node()),
{
    let target = str_bytes("appinfo");
    let extra = steam_edit_app_node();
    append_to_container(node, &target, &extra)
}

/// What the shipped patch does to one kept section: rewrites its top-level
/// node list with the `steam_edit` append, leaving all other fields alone.
pub open spec fn spec_update_section(s: SectionV) -> SectionV {
    if s.app_id == ASSASSINS_CREED2_APP_ID {
        SectionV {
            nodes: spec_rewrite_nodes(s.nodes, spec_appinfo_name(), spec_steam_edit_node()),
            ..s
        }
    } else {
        s
    }
}

/// The shipped rewrite of one section.
pub fn update_app_section(section: &VDFAppSection) -> (r: VDFAppSection)
    ensures
        r@ == spec_update_section(section@),
{
    if section.app_id == ASSASSINS_CREED2_APP_ID {
        let target = str_bytes("appinfo");
        let extra = steam_edit_app_node();
        let r = rewrite_section_nodes(section, &target, &extra);
        proof {
            assert(r@ =~~= spec_update_section(section@));
        }
        r
    } else {
        let r = clone_section(section);
        r
    }
}

/// The whole shipped patch: keep only the target application's sections and
/// append the `steam_edit` template to each of their top-level `appinfo`
/// containers; the header passes through unchanged.
pub open spec fn spec_update(d: DocV) -> DocV {
    DocV {
        header: d.header,
        sections: spec_filter_sections(d.sections, ASSASSINS_CREED2_APP_ID).map_values(
            |s: SectionV| spec_update_section(s),
        ),
    }
}

/// Applies the shipped patch to a document.
pub fn update(vdf: &VDF) -> (r: VDF)
    ensures
        r@ == spec_update(vdf@),
{
    let filtered = filter_sections(vdf, ASSASSINS_CREED2_APP_ID);
    let mut sections: Vec<VDFAppSection> = Vec::new();
    let n = filtered.sections.len();
    for i in 0..n
        invariant
            n == filtered.sections@.len(),
            sections_view(filtered.sections@) == spec_filter_sections(
                vdf@.sections,
                ASSASSINS_CREED2_APP_ID,
            ),
            sections_view(sections@) == sections_view(filtered.sections@).take(
                i as int,
            ).map_values(|s: SectionV| spec_update_section(s)),
    {
        let s = update_app_section(&filtered.sections[i]);
        proof {
            lemma_sections_view_push(sections@, s);
            assert(sections_view(sections@).push(s@) =~= sections_view(filtered.sections@).take(
                i + 1,
            ).map_values(|s2: SectionV| spec_update_section(s2)));
        }
        sections.push(s);
    }
    proof {
        assert(sections_view(filtered.sections@).take(n as int) =~= sections_view(
            filtered.sections@,
        ));
        assert(sections_view(filtered.sections@).map_values(
            |s2: SectionV| spec_update_section(s2),
        ) =~= spec_update(vdf@).sections);
    }
    let r = VDF { header: filtered.header, sections };
    proof {
        assert(r@ =~~= spec_update(vdf@));
    }
    r
}

} // verus!
