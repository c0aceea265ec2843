//! Which terrain colliders to spawn and which to retire.

use vstd::prelude::*;
use vstd::string::*;
use crate::path_map::{lemma_select_next, select, text_paths, Path};
use super::retention::{colliders_under, members_outside_keys, take_colliders};
use super::state::LodState;

verus! {

impl<O, D> LodState<O, D> {
    /// The nodes that should get a collider now: chosen, without one, and with their data here.
    pub open spec fn due_colliders(&self) -> Set<Path> {
        Set::new(
            |p: Path|
                !self.physics_colliders@.contains_key(p) && self.node_data@.contains_key(p),
        )
    }

    /// Lists the chosen nodes that should get a collider now.
    ///
    /// Colliders are spawned before others are retired, so that ground that passes from one
    /// depth to another is never without.
    pub fn colliders_to_spawn(&self) -> (paths: Vec<String>)
        ensures
            text_paths(paths@) == select(self.physics_target_paths.keys(), self.due_colliders()),
    {
        let n: usize = self.physics_target_paths.len();
        let ghost keys = self.physics_target_paths.keys();
        let ghost due = self.due_colliders();
        let mut paths: Vec<String> = Vec::new();
        let mut i: usize = 0;
        assert(text_paths(paths@) =~= select(keys.take(0), due));
        while i < n
            invariant
                i <= n,
                n == keys.len(),
                keys == self.physics_target_paths.keys(),
                due == self.due_colliders(),
                text_paths(paths@) == select(keys.take(i as int), due),
            decreases n - i,
        {
            let key = self.physics_target_paths.key_at(i);
            let ghost before = text_paths(paths@);
            proof {
                lemma_select_next(keys, due, i as int);
            }
            if !self.physics_colliders.contains_key(key.as_str()) && self.node_data.contains_key(
                key.as_str(),
            ) {
                paths.push(key.clone());
                assert(text_paths(paths@) =~= before.push(key@));
            }
            i = i + 1;
        }
        assert(keys.take(n as int) =~= keys);
        paths
    }

    /// Whether `after` differs from this state at most in its colliders.
    pub open spec fn same_but_colliders(&self, after: &Self) -> bool {
        &&& after.loading_nodes == self.loading_nodes
        &&& after.loaded_nodes == self.loaded_nodes
        &&& after.loading_bulks == self.loading_bulks
        &&& after.failed_bulks == self.failed_bulks
        &&& after.bulks == self.bulks
        &&& after.bulk_node_indices == self.bulk_node_indices
        &&& after.node_obbs == self.node_obbs
        &&& after.node_entities == self.node_entities
        &&& after.node_data == self.node_data
        &&& after.physics_target_paths == self.physics_target_paths
        &&& after.node_last_seen == self.node_last_seen
        &&& after.bulk_last_seen == self.bulk_last_seen
    }

    /// Notes the collider that was spawned for the node at `path`.
    pub fn record_collider(&mut self, path: &str, entity: u64)
        requires
            old(self).wf(),
        ensures
            final(self).wf(),
            final(self).physics_colliders@ == old(self).physics_colliders@.insert(path@, entity),
            old(self).same_but_colliders(final(self)),
    {
        self.physics_colliders.insert(path.to_owned(), entity);
    }

    /// Retires the colliders of the nodes that are no longer chosen, and hands them over.
    pub fn retire_colliders(&mut self) -> (despawn: Vec<u64>)
        requires
            old(self).wf(),
        ensures
            final(self).wf(),
            final(self).physics_colliders@ == old(self).physics_colliders@.restrict(
                old(self).physics_target_paths@,
            ),
            despawn@ == colliders_under(
                old(self).physics_colliders@,
                select(
                    old(self).physics_colliders.keys(),
                    old(self).physics_target_paths@.complement(),
                ),
            ),
            old(self).same_but_colliders(final(self)),
    {
        let mut despawn: Vec<u64> = Vec::new();
        let obsolete = members_outside_keys(&self.physics_colliders, &self.physics_target_paths);
        take_colliders(&mut self.physics_colliders, &obsolete, &mut despawn);
        proof {
            let targets = self.physics_target_paths@;
            assert(self.physics_colliders@ =~= old(self).physics_colliders@.restrict(targets));
            assert(despawn@ =~= colliders_under(
                old(self).physics_colliders@,
                text_paths(obsolete@),
            ));
        }
        despawn
    }
}

} // verus!
