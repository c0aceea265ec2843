//! What happens when a bulk or a node arrives.

use vstd::prelude::*;
use vstd::string::*;
use crate::path_map::Path;
use super::model::{build_bulk_node_index, BulkMetadata};
use super::state::LodState;

verus! {

impl<O, D> LodState<O, D> {
    /// Whether `after` is this state with `bulk` cached under `key`.
    pub open spec fn caches(&self, key: Path, bulk: BulkMetadata<O>, after: &Self) -> bool {
        &&& after.bulks@ == self.bulks@.insert(key, bulk)
        &&& after.loading_nodes == self.loading_nodes
        &&& after.loaded_nodes == self.loaded_nodes
        &&& after.failed_bulks == self.failed_bulks
        &&& after.node_obbs == self.node_obbs
        &&& after.node_entities == self.node_entities
        &&& after.node_data == self.node_data
        &&& after.physics_colliders == self.physics_colliders
        &&& after.physics_target_paths == self.physics_target_paths
        &&& after.node_last_seen == self.node_last_seen
        &&& after.bulk_last_seen == self.bulk_last_seen
    }

    /// Caches a bulk with its lookup table.
    fn cache_bulk(&mut self, key: String, bulk: BulkMetadata<O>)
        requires
            old(self).wf(),
        ensures
            final(self).wf(),
            old(self).caches(key@, bulk, final(self)),
            final(self).loading_bulks == old(self).loading_bulks,
    {
        let index = build_bulk_node_index(key.as_str(), &bulk);
        self.bulks.insert(key.clone(), bulk);
        self.bulk_node_indices.insert(key, index);
        assert(self.bulk_node_indices@.dom() =~= self.bulks@.dom());
    }

    /// Caches the root bulk, unless it is cached already.
    pub fn cache_root_bulk(&mut self, root: BulkMetadata<O>)
        requires
            old(self).wf(),
        ensures
            final(self).wf(),
            old(self).bulks@.contains_key(Seq::empty()) ==> *final(self) == *old(self),
            !old(self).bulks@.contains_key(Seq::empty()) ==> old(self).caches(
                Seq::empty(),
                root,
                final(self),
            ) && final(self).loading_bulks == old(self).loading_bulks,
    {
        let key = String::new();
        if !self.bulks.contains_key(key.as_str()) {
            self.cache_bulk(key, root);
        }
    }

    /// Takes in the answer to a bulk request: the bulk, or that it failed.
    pub fn finish_bulk(&mut self, path: String, answer: Option<BulkMetadata<O>>)
        requires
            old(self).wf(),
        ensures
            final(self).wf(),
            final(self).loading_bulks@ == old(self).loading_bulks@.remove(path@),
            answer matches Some(bulk) ==> old(self).caches(path@, bulk, final(self)),
            answer is None ==> {
                &&& final(self).failed_bulks@ == old(self).failed_bulks@.insert(path@)
                &&& final(self).bulks == old(self).bulks
                &&& final(self).bulk_node_indices == old(self).bulk_node_indices
                &&& final(self).loading_nodes == old(self).loading_nodes
                &&& final(self).loaded_nodes == old(self).loaded_nodes
                &&& final(self).node_obbs == old(self).node_obbs
                &&& final(self).node_entities == old(self).node_entities
                &&& final(self).node_data == old(self).node_data
                &&& final(self).physics_colliders == old(self).physics_colliders
                &&& final(self).physics_target_paths == old(self).physics_target_paths
                &&& final(self).node_last_seen == old(self).node_last_seen
                &&& final(self).bulk_last_seen == old(self).bulk_last_seen
            },
    {
        self.loading_bulks.remove(path.as_str());
        match answer {
            Some(bulk) => {
                self.cache_bulk(path, bulk);
            },
            None => {
                self.failed_bulks.insert(path);
            },
        }
    }

    /// The entities known under `p`.
    pub open spec fn entities_at(&self, p: Path) -> Seq<u64> {
        if self.node_entities@.contains_key(p) {
            self.node_entities@[p]@
        } else {
            Seq::empty()
        }
    }
}

impl<O: Copy, D> LodState<O, D> {
    /// Takes in the answer to a node request: the node's data and own bounding volume, or that
    /// it failed.
    ///
    /// `path` is the requested path and `node_path` the one that the node gives for itself.
    /// Hands back the bounding volume to spawn the node with: the one that its bulk gave, or
    /// else its own.
    pub fn finish_node(&mut self, path: String, node_path: &str, answer: Option<(D, O)>) -> (spawn:
        Option<O>)
        requires
            old(self).wf(),
        ensures
            final(self).wf(),
            final(self).loading_nodes@ == old(self).loading_nodes@.remove(path@),
            final(self).loading_bulks == old(self).loading_bulks,
            final(self).failed_bulks == old(self).failed_bulks,
            final(self).bulks == old(self).bulks,
            final(self).bulk_node_indices == old(self).bulk_node_indices,
            final(self).node_obbs == old(self).node_obbs,
            final(self).physics_colliders == old(self).physics_colliders,
            final(self).physics_target_paths == old(self).physics_target_paths,
            final(self).node_last_seen == old(self).node_last_seen,
            final(self).bulk_last_seen == old(self).bulk_last_seen,
            answer matches Some(node) ==> {
                &&& spawn == Some(
                    if old(self).node_obbs@.contains_key(node_path@) {
                        old(self).node_obbs@[node_path@]
                    } else {
                        node.1
                    },
                )
                &&& final(self).loaded_nodes@ == old(self).loaded_nodes@.insert(path@)
                &&& final(self).node_data@ == old(self).node_data@.insert(path@, node.0)
                &&& final(self).node_entities@.contains_key(path@)
                &&& forall|p: Path| #[trigger]
                    final(self).entities_at(p) == old(self).entities_at(p)
                &&& forall|p: Path|
                    p != path@ ==> (#[trigger] final(self).node_entities@.contains_key(p)
                        <==> old(self).node_entities@.contains_key(p))
            },
            answer is None ==> {
                &&& spawn is None
                &&& final(self).loaded_nodes == old(self).loaded_nodes
                &&& final(self).node_data == old(self).node_data
                &&& final(self).node_entities == old(self).node_entities
            },
    {
        self.loading_nodes.remove(path.as_str());
        match answer {
            Some((data, own)) => {
                let obb = match self.node_obbs.get(node_path) {
                    Some(known) => *known,
                    None => own,
                };
                self.loaded_nodes.insert(path.clone());
                self.node_data.insert(path.clone(), data);
                if !self.node_entities.contains_key(path.as_str()) {
                    let none: Vec<u64> = Vec::new();
                    self.node_entities.insert(path, none);
                }
                assert forall|p: Path| #[trigger] self.entities_at(p) == old(self).entities_at(
                    p,
                ) by {
                    assert(self.entities_at(p) =~= old(self).entities_at(p));
                }
                Some(obb)
            },
            None => None,
        }
    }
}

impl<O, D> LodState<O, D> {
    /// Notes an entity that was spawned for the node at `path`.
    pub fn record_entity(&mut self, path: &str, entity: u64)
        requires
            old(self).wf(),
        ensures
            final(self).wf(),
            final(self).node_entities@.dom() == old(self).node_entities@.dom().insert(path@),
            final(self).entities_at(path@) == old(self).entities_at(path@).push(entity),
            forall|p: Path|
                p != path@ ==> #[trigger] final(self).entities_at(p) == old(self).entities_at(p),
            final(self).loading_nodes == old(self).loading_nodes,
            final(self).loaded_nodes == old(self).loaded_nodes,
            final(self).loading_bulks == old(self).loading_bulks,
            final(self).failed_bulks == old(self).failed_bulks,
            final(self).bulks == old(self).bulks,
            final(self).bulk_node_indices == old(self).bulk_node_indices,
            final(self).node_obbs == old(self).node_obbs,
            final(self).node_data == old(self).node_data,
            final(self).physics_colliders == old(self).physics_colliders,
            final(self).physics_target_paths == old(self).physics_target_paths,
            final(self).node_last_seen == old(self).node_last_seen,
            final(self).bulk_last_seen == old(self).bulk_last_seen,
    {
        let mut list: Vec<u64> = match self.node_entities.remove(path) {
            Some(known) => known,
            None => Vec::new(),
        };
        list.push(entity);
        self.node_entities.insert(path.to_owned(), list);
        assert(self.node_entities@.dom() =~= old(self).node_entities@.dom().insert(path@));
        assert(self.entities_at(path@) =~= old(self).entities_at(path@).push(entity));
    }
}

} // verus!
