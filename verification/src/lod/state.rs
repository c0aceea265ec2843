//! The caches that both walks share.

use vstd::prelude::*;
use vstd::string::*;
use crate::path_map::{Path, PathMap, PathSet};
use super::model::{
    bulk_key,
    indexes,
    lemma_slot_of,
    octant_char,
    slot_of,
    BulkMetadata,
    FrameView,
    NodeMetadata,
    NodeVerdict,
    Octree,
};

verus! {

/// What is loaded, what is on its way, and when each was last asked for.
///
/// `O` stands for a node's bounding volume and `D` for its cached meshes; spawned
/// entities are known by number.
#[verifier::reject_recursive_types(O)]
#[verifier::reject_recursive_types(D)]
pub struct LodState<O, D> {
    /// Nodes that are being loaded.
    pub loading_nodes: PathSet,
    /// Nodes that are loaded and rendered.
    pub loaded_nodes: PathSet,
    /// Bulks that are being loaded.
    pub loading_bulks: PathSet,
    /// Bulks that failed to load; they are not asked for again.
    pub failed_bulks: PathSet,
    /// Cached bulks.
    pub bulks: PathMap<BulkMetadata<O>>,
    /// The lookup table of each cached bulk.
    pub bulk_node_indices: PathMap<PathMap<usize>>,
    /// Bounding volumes of the nodes that a walk has met.
    pub node_obbs: PathMap<O>,
    /// The entities spawned for each node.
    pub node_entities: PathMap<Vec<u64>>,
    /// Cached node data.
    pub node_data: PathMap<D>,
    /// The collider entity of each node that has one.
    pub physics_colliders: PathMap<u64>,
    /// The nodes that the physics walk chose as collider hosts.
    pub physics_target_paths: PathSet,
    /// When each node was last asked for, in nanoseconds.
    pub node_last_seen: PathMap<u64>,
    /// When each bulk was last asked for, in nanoseconds.
    pub bulk_last_seen: PathMap<u64>,
}

impl<O, D> LodState<O, D> {
    /// Every cached bulk has its lookup table, and there is no other table.
    pub open spec fn wf(&self) -> bool {
        &&& self.bulk_node_indices@.dom() == self.bulks@.dom()
        &&& forall|key: Path| #[trigger]
            self.bulks@.contains_key(key) ==> indexes(
                self.bulk_node_indices@[key]@,
                key,
                self.bulks@[key].nodes@,
            )
    }

    /// What the walks read of the caches and the camera.
    pub open spec fn octree(&self, view: &FrameView) -> Octree<O> {
        Octree { bulks: self.bulks@, verdicts: view.verdicts@, low_altitude: view.low_altitude }
    }

    /// Whether the node at `p` is neither loaded nor on its way.
    pub open spec fn node_absent(&self, p: Path) -> bool {
        !self.loaded_nodes@.contains(p) && !self.loading_nodes@.contains(p)
    }

    /// Whether the bulk at `p` is neither cached, nor on its way, nor known to fail.
    pub open spec fn bulk_absent(&self, p: Path) -> bool {
        &&& !self.bulks@.contains_key(p)
        &&& !self.loading_bulks@.contains(p)
        &&& !self.failed_bulks@.contains(p)
    }

    /// Empty caches.
    pub fn new() -> (state: Self)
        ensures
            state.wf(),
            state.loading_nodes@ == Set::<Path>::empty(),
            state.loaded_nodes@ == Set::<Path>::empty(),
            state.loading_bulks@ == Set::<Path>::empty(),
            state.failed_bulks@ == Set::<Path>::empty(),
            state.bulks@ == Map::<Path, BulkMetadata<O>>::empty(),
            state.node_obbs@ == Map::<Path, O>::empty(),
            state.node_entities@ == Map::<Path, Vec<u64>>::empty(),
            state.node_data@ == Map::<Path, D>::empty(),
            state.physics_colliders@ == Map::<Path, u64>::empty(),
            state.physics_target_paths@ == Set::<Path>::empty(),
            state.node_last_seen@ == Map::<Path, u64>::empty(),
            state.bulk_last_seen@ == Map::<Path, u64>::empty(),
    {
        LodState {
            loading_nodes: PathSet::new(),
            loaded_nodes: PathSet::new(),
            loading_bulks: PathSet::new(),
            failed_bulks: PathSet::new(),
            bulks: PathMap::new(),
            bulk_node_indices: PathMap::new(),
            node_obbs: PathMap::new(),
            node_entities: PathMap::new(),
            node_data: PathMap::new(),
            physics_colliders: PathMap::new(),
            physics_target_paths: PathSet::new(),
            node_last_seen: PathMap::new(),
            bulk_last_seen: PathMap::new(),
        }
    }

    /// Whether the node at `path` is loaded.
    pub fn is_node_loaded(&self, path: &str) -> (loaded: bool)
        ensures
            loaded == self.loaded_nodes@.contains(path@),
    {
        self.loaded_nodes.contains(path)
    }

    /// The number of live physics colliders.
    pub fn physics_collider_count(&self) -> (count: usize)
        ensures
            count == self.physics_colliders@.dom().len(),
    {
        self.physics_colliders.len()
    }
}

/// What a walk finds when it goes below a path.
#[derive(Clone, Copy, Debug, PartialEq, Eq, Structural)]
pub enum Passage {
    /// Nothing is known below the path.
    Shut,
    /// A child bulk of this epoch begins below the path, and is not cached.
    Missing(u32),
    /// The children can be looked up.
    Open,
}

/// What a walk finds when it goes below `p`.
pub open spec fn passage<O>(tree: Octree<O>, p: Path) -> Passage {
    if tree.entered(p) {
        Passage::Open
    } else if tree.declared(p) {
        Passage::Missing(tree.child_epoch(p))
    } else {
        Passage::Shut
    }
}

impl<O, D> LodState<O, D> {
    /// Finds out what lies below `path`.
    pub fn find_passage(&self, view: &FrameView, path: &str) -> (found: Passage)
        ensures
            found == passage(self.octree(view), path@),
    {
        let n: usize = path.unicode_len();
        let ghost tree = self.octree(view);
        if n > 0 && n % 4 == 0 {
            assert(bulk_key(path@) =~= path@);
            assert(path@.subrange(0, n - 4) =~= path@.take(n - 4));
            assert(path@.subrange(n - 4, n as int) =~= path@.skip(n - 4));
            let parent = path.substring_char(0, n - 4);
            let rel = path.substring_char(n - 4, n);
            match self.bulks.get(parent) {
                None => Passage::Shut,
                Some(bulk) => match bulk.child_bulk_paths.get(rel) {
                    None => Passage::Shut,
                    Some(epoch) => if self.bulks.contains_key(path) {
                        Passage::Open
                    } else {
                        Passage::Missing(*epoch)
                    },
                },
            }
        } else {
            let key = path.substring_char(0, n - n % 4);
            assert(key@ =~= bulk_key(path@));
            if self.bulks.contains_key(key) {
                Passage::Open
            } else {
                Passage::Shut
            }
        }
    }

    /// Looks up the child of `path` in the octant `octant` and its verdict.
    pub fn find_child(&self, view: &FrameView, path: &str, octant: u8) -> (found: Option<
        (String, &NodeMetadata<O>, NodeVerdict),
    >)
        requires
            self.wf(),
            self.octree(view).entered(path@),
            octant < 8,
        ensures
            found is Some <==> self.octree(view).slot(path@.push(octant_char(octant as int))) is Some,
            found matches Some(f) ==> {
                &&& f.0@ == path@.push(octant_char(octant as int))
                &&& *f.1 == self.octree(view).node(f.0@)
                &&& f.1.path@ == f.0@
                &&& f.2 == self.octree(view).verdict(f.0@)
            },
    {
        let n: usize = path.unicode_len();
        let k: usize = n - n % 4;
        let key = path.substring_char(0, k);
        assert(key@ =~= bulk_key(path@));
        let mut child: String = path.to_owned();
        child.push((48 + octant) as char);
        let ghost q = path@.push(octant_char(octant as int));
        assert(child@ == q);
        assert(q.drop_last() =~= path@);
        let m: usize = child.as_str().unicode_len();
        let rel = child.as_str().substring_char(k, m);
        assert(key@ + rel@ =~= q);
        match (self.bulks.get(key), self.bulk_node_indices.get(key)) {
            (Some(bulk), Some(index)) => {
                proof {
                    lemma_slot_of(bulk.nodes@, q);
                    assert(index@.contains_key(rel@) <==> slot_of(bulk.nodes@, key@ + rel@) is Some);
                }
                match index.get(rel) {
                    None => None,
                    Some(slot) => {
                        let node = &bulk.nodes[*slot];
                        let verdict = match view.verdicts.get(key) {
                            Some(all) if *slot < all.len() => all[*slot],
                            _ => NodeVerdict {
                                in_frustum: false,
                                nearby: false,
                                refine: false,
                                physics_depth: None,
                            },
                        };
                        Some((child, node, verdict))
                    },
                }
            },
            _ => None,
        }
    }
}

} // verus!
