//! The octree as the walks see it.

use vstd::prelude::*;
use vstd::string::*;
use crate::path_map::{Path, PathMap};
use crate::text::strip_prefix;

verus! {

/// What a bulk says of one node.
///
/// `obb` stands for the node's bounding volume; the walks only hand it on.
pub struct NodeMetadata<O> {
    pub path: String,
    pub epoch: u32,
    pub texture_format: u32,
    pub imagery_epoch: Option<u32>,
    pub has_data: bool,
    pub obb: O,
}

impl<O: Copy> NodeMetadata<O> {
    /// A copy of the record.
    pub fn duplicate(&self) -> (copy: Self)
        ensures
            copy == *self,
    {
        NodeMetadata {
            path: self.path.clone(),
            epoch: self.epoch,
            texture_format: self.texture_format,
            imagery_epoch: self.imagery_epoch,
            has_data: self.has_data,
            obb: self.obb,
        }
    }
}

/// The nodes of four levels below one path, and the bulks that hang below those.
pub struct BulkMetadata<O> {
    /// The nodes, under their full paths.
    pub nodes: Vec<NodeMetadata<O>>,
    /// The epochs of the child bulks, under their last four path characters.
    pub child_bulk_paths: PathMap<u32>,
}

/// What the current camera makes of one node.
#[derive(Clone, Copy, Debug, PartialEq, Eq, Structural)]
pub struct NodeVerdict {
    /// The bounding volume meets the view frustum.
    pub in_frustum: bool,
    /// The bounding volume's centre lies within the keep-loaded radius.
    pub nearby: bool,
    /// The node is too coarse for its distance.
    pub refine: bool,
    /// The depth at which physics wants this region; `None` beyond the outermost band.
    pub physics_depth: Option<usize>,
}

/// The verdict on a node that the camera says nothing about: out of sight and out of range.
pub open spec fn unseen() -> NodeVerdict {
    NodeVerdict { in_frustum: false, nearby: false, refine: false, physics_depth: None }
}

/// What the current camera makes of the cached bulks.
pub struct FrameView {
    /// The camera is low enough for nearby nodes to be kept outside the frustum.
    pub low_altitude: bool,
    /// For each bulk the verdicts on its nodes, position by position.
    pub verdicts: PathMap<Vec<NodeVerdict>>,
}

/// What both walks read: the cached bulks and the camera's verdicts on their nodes.
pub struct Octree<O> {
    pub bulks: Map<Path, BulkMetadata<O>>,
    pub verdicts: Map<Path, Vec<NodeVerdict>>,
    pub low_altitude: bool,
}

/// Whether `c` names one of the eight octants.
pub open spec fn is_octant(c: char) -> bool {
    '0' <= c <= '7'
}

/// The character of an octant.
pub open spec fn octant_char(octant: int) -> char {
    ('0' as int + octant) as char
}

/// Whether a new bulk begins below `p`.
pub open spec fn at_boundary(p: Path) -> bool {
    p.len() > 0 && p.len() % 4 == 0
}

/// The bulk that lists the children of `p`: the longest multiple of four characters.
pub open spec fn bulk_key(p: Path) -> Path {
    p.take(p.len() - p.len() % 4)
}

/// The position of the last node in `nodes` under the path `p`.
pub open spec fn slot_of<O>(nodes: Seq<NodeMetadata<O>>, p: Path) -> Option<int>
    decreases nodes.len(),
{
    if nodes.len() == 0 {
        None
    } else if nodes.last().path@ == p {
        Some(nodes.len() - 1)
    } else {
        slot_of(nodes.drop_last(), p)
    }
}

impl<O> Octree<O> {
    /// Whether `p` is the path of a child bulk that its parent bulk names.
    pub open spec fn declared(self, p: Path) -> bool {
        let parent = p.take(p.len() - 4);
        &&& at_boundary(p)
        &&& self.bulks.contains_key(parent)
        &&& self.bulks[parent].child_bulk_paths@.contains_key(p.skip(p.len() - 4))
    }

    /// The epoch that the parent bulk gives for the child bulk at `p`.
    pub open spec fn child_epoch(self, p: Path) -> u32 {
        self.bulks[p.take(p.len() - 4)].child_bulk_paths@[p.skip(p.len() - 4)]
    }

    /// Whether the children of `p` can be looked up.
    pub open spec fn entered(self, p: Path) -> bool {
        &&& self.bulks.contains_key(bulk_key(p))
        &&& at_boundary(p) ==> self.declared(p)
    }

    /// Where the node at `p` stands in the bulk that lists it.
    pub open spec fn slot(self, p: Path) -> Option<int> {
        if p.len() > 0 && is_octant(p.last()) && self.entered(p.drop_last()) {
            slot_of(self.bulks[bulk_key(p.drop_last())].nodes@, p)
        } else {
            None
        }
    }

    /// The node at `p`.
    pub open spec fn node(self, p: Path) -> NodeMetadata<O> {
        self.bulks[bulk_key(p.drop_last())].nodes@[self.slot(p)->0]
    }

    /// What the camera makes of the node at `p`.
    pub open spec fn verdict(self, p: Path) -> NodeVerdict {
        let key = bulk_key(p.drop_last());
        if self.verdicts.contains_key(key) && self.slot(p)->0 < self.verdicts[key]@.len() {
            self.verdicts[key]@[self.slot(p)->0]
        } else {
            unseen()
        }
    }

    /// Whether the node at `p` is in view, or near enough at low altitude to be kept anyway.
    pub open spec fn kept(self, p: Path) -> bool {
        self.verdict(p).in_frustum || (self.low_altitude && self.verdict(p).nearby)
    }
}

pub proof fn lemma_slot_of<O>(nodes: Seq<NodeMetadata<O>>, p: Path)
    ensures
        slot_of(nodes, p) matches Some(i) ==> 0 <= i < nodes.len() && nodes[i].path@ == p,
        slot_of(nodes, p) is None ==> forall|i: int| 0 <= i < nodes.len() ==> (#[trigger] nodes[i]).path@ != p,
    decreases nodes.len(),
{
    if nodes.len() > 0 && nodes.last().path@ != p {
        lemma_slot_of(nodes.drop_last(), p);
        assert forall|i: int| slot_of(nodes, p) is None && 0 <= i < nodes.len() implies (
        #[trigger] nodes[i]).path@ != p by {
            if i < nodes.len() - 1 {
                assert(nodes[i] == nodes.drop_last()[i]);
            }
        }
    }
}

/// Whether `index` is the lookup table of a bulk: relative path to position in `nodes`.
pub open spec fn indexes<O>(index: Map<Path, usize>, key: Path, nodes: Seq<NodeMetadata<O>>) -> bool {
    forall|rel: Path|
        {
            &&& #[trigger] index.contains_key(rel) <==> slot_of(nodes, key + rel) is Some
            &&& index.contains_key(rel) ==> index[rel] == slot_of(nodes, key + rel)->0
        }
}

/// Builds the lookup table of a freshly loaded bulk: relative path to position.
///
/// `key` is the bulk's full path. A node whose path does not start with it is
/// left out; of several nodes under one path the last is kept.
pub fn build_bulk_node_index<O>(key: &str, bulk: &BulkMetadata<O>) -> (index: PathMap<usize>)
    ensures
        indexes(index@, key@, bulk.nodes@),
{
    let mut index: PathMap<usize> = PathMap::new();
    let mut i: usize = 0;
    let ghost nodes = bulk.nodes@;
    while i < bulk.nodes.len()
        invariant
            i <= nodes.len(),
            nodes == bulk.nodes@,
            indexes(index@, key@, nodes.take(i as int)),
        decreases nodes.len() - i,
    {
        let ghost earlier = index@;
        let node = &bulk.nodes[i];
        let ghost sofar = nodes.take(i + 1);
        assert(sofar.drop_last() =~= nodes.take(i as int));
        assert(sofar.last() == nodes[i as int]);
        match strip_prefix(node.path.as_str(), key) {
            Some(rel) => {
                assert(key@ + rel@ =~= node.path@) by {
                    assert(node.path@ =~= node.path@.take(key@.len() as int) + node.path@.skip(
                        key@.len() as int,
                    ));
                }
                index.insert(rel.to_owned(), i);
                assert forall|r: Path|
                    {
                        &&& #[trigger] index@.contains_key(r) <==> slot_of(sofar, key@ + r) is Some
                        &&& index@.contains_key(r) ==> index@[r] == slot_of(sofar, key@ + r)->0
                    } by {
                    assert(earlier.contains_key(r) <==> slot_of(sofar.drop_last(), key@ + r) is Some);
                    if key@ + r == node.path@ {
                        assert(r =~= (key@ + r).skip(key@.len() as int));
                    }
                }
            },
            None => {
                assert forall|r: Path|
                    {
                        &&& #[trigger] index@.contains_key(r) <==> slot_of(sofar, key@ + r) is Some
                        &&& index@.contains_key(r) ==> index@[r] == slot_of(sofar, key@ + r)->0
                    } by {
                    assert(earlier.contains_key(r) <==> slot_of(sofar.drop_last(), key@ + r) is Some);
                    assert((key@ + r).take(key@.len() as int) =~= key@);
                }
            },
        }
        i = i + 1;
    }
    assert(nodes.take(nodes.len() as int) =~= nodes);
    index
}

} // verus!
