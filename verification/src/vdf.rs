//! In-memory representation of a decoded document: header, sections, and the
//! recursive node tree. Names and string values are opaque null-free byte
//! strings; no text encoding is assumed.

use vstd::prelude::*;

use crate::model::{DocV, HeaderV, NodeV, SectionV};

verus! {

broadcast use vstd::seq::group_seq_axioms, vstd::std_specs::vec::axiom_vec_index_decreases;

/// Fixed 8-byte document header: magic constant and format version.
#[derive(Debug, Clone, Copy, PartialEq, Eq, Structural)]
pub struct VDFHeader {
    pub magic: u32,
    pub version: u32,
}

/// One entry of a section's metadata tree: a container of child nodes, a
/// string value, or a 32-bit integer value. `name` and `value` byte strings
/// must not contain a null byte for the encoding to be invertible.
#[derive(Debug, PartialEq, Eq)]
pub enum VDFAppNode {
    Simple { name: Vec<u8>, children: Vec<VDFAppNode> },
    Str { name: Vec<u8>, value: Vec<u8> },
    Int { name: Vec<u8>, value: u32 },
}

/// One application's metadata block: identifier, declared body length, fixed
/// scalar fields, two opaque 20-byte digests, and the top-level node list.
#[derive(Debug, PartialEq, Eq)]
pub struct VDFAppSection {
    pub app_id: u32,
    pub data_size: u32,
    pub info_state: u32,
    pub last_updated: u32,
    pub pics_token: u64,
    pub sha1: Vec<u8>,
    pub binary_sha1: Vec<u8>,
    pub change_number: u32,
    pub nodes: Vec<VDFAppNode>,
}

/// A whole decoded document: header plus an ordered sequence of sections.
#[derive(Debug, PartialEq, Eq)]
pub struct VDF {
    pub header: VDFHeader,
    pub sections: Vec<VDFAppSection>,
}

/// The ghost mirror of one node.
pub open spec fn node_view(n: VDFAppNode) -> NodeV
    decreases n, 0int,
{
    match n {
        VDFAppNode::Simple { name, children } => NodeV::Simple {
            name: name@,
            children: nodes_vec_view_from(children, 0),
        },
        VDFAppNode::Str { name, value } => NodeV::Str { name: name@, value: value@ },
        VDFAppNode::Int { name, value } => NodeV::Int { name: name@, value },
    }
}

/// The ghost mirrors of a vector's nodes from index `i` on. Recursion runs
/// over the vector itself so that each element stays structurally below it.
pub open spec fn nodes_vec_view_from(v: Vec<VDFAppNode>, i: int) -> Seq<NodeV>
    decreases v, v@.len() - i,
{
    if 0 <= i < v@.len() {
        seq![node_view(v[i])] + nodes_vec_view_from(v, i + 1)
    } else {
        Seq::empty()
    }
}

impl View for VDFAppNode {
    type V = NodeV;

    open spec fn view(&self) -> NodeV {
        node_view(*self)
    }
}

/// The views of a sequence of nodes, in order.
pub open spec fn nodes_view(ns: Seq<VDFAppNode>) -> Seq<NodeV> {
    ns.map_values(|n: VDFAppNode| node_view(n))
}

/// The views of a sequence of sections, in order.
pub open spec fn sections_view(ss: Seq<VDFAppSection>) -> Seq<SectionV> {
    ss.map_values(|s: VDFAppSection| s@)
}

proof fn lemma_nodes_vec_view_from(v: Vec<VDFAppNode>, i: int)
    requires
        0 <= i <= v@.len(),
    ensures
        nodes_vec_view_from(v, i) == nodes_view(v@.skip(i)),
    decreases v@.len() - i,
{
    if i < v@.len() {
        lemma_nodes_vec_view_from(v, i + 1);
        assert(v@.skip(i).drop_first() =~= v@.skip(i + 1));
        assert(nodes_vec_view_from(v, i) =~= nodes_view(v@.skip(i)));
    } else {
        assert(nodes_vec_view_from(v, i) =~= nodes_view(v@.skip(i)));
    }
}

/// A node vector's views, taken from the front, are `nodes_view` of it.
pub proof fn lemma_vec_nodes_view(v: Vec<VDFAppNode>)
    ensures
        nodes_vec_view_from(v, 0) == nodes_view(v@),
{
    lemma_nodes_vec_view_from(v, 0);
    assert(v@.skip(0) =~= v@);
}

/// A container node's view is built from its name's and children's views.
pub proof fn lemma_view_simple(name: Vec<u8>, children: Vec<VDFAppNode>)
    ensures
        (VDFAppNode::Simple { name, children })@ == (NodeV::Simple {
            name: name@,
            children: nodes_view(children@),
        }),
{
    lemma_vec_nodes_view(children);
}

/// Appending a node appends its view.
pub proof fn lemma_nodes_view_push(ns: Seq<VDFAppNode>, n: VDFAppNode)
    ensures
        nodes_view(ns.push(n)) == nodes_view(ns).push(n@),
{
    assert(nodes_view(ns.push(n)) =~= nodes_view(ns).push(n@));
}

/// Appending a section appends its view.
pub proof fn lemma_sections_view_push(ss: Seq<VDFAppSection>, s: VDFAppSection)
    ensures
        sections_view(ss.push(s)) == sections_view(ss).push(s@),
{
    assert(sections_view(ss.push(s)) =~= sections_view(ss).push(s@));
}

impl View for VDFHeader {
    type V = HeaderV;

    open spec fn view(&self) -> HeaderV {
        HeaderV { magic: self.magic, version: self.version }
    }
}

impl View for VDFAppSection {
    type V = SectionV;

    open spec fn view(&self) -> SectionV {
        SectionV {
            app_id: self.app_id,
            data_size: self.data_size,
            info_state: self.info_state,
            last_updated: self.last_updated,
            pics_token: self.pics_token,
            sha1: self.sha1@,
            binary_sha1: self.binary_sha1@,
            change_number: self.change_number,
            nodes: nodes_view(self.nodes@),
        }
    }
}

impl View for VDF {
    type V = DocV;

    open spec fn view(&self) -> DocV {
        DocV { header: self.header@, sections: sections_view(self.sections@) }
    }
}

} // verus!
