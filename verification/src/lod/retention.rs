//! What is dropped once nothing has asked for it for a while.

use vstd::prelude::*;
use crate::path_map::{
    lemma_select_distinct,
    lemma_select_members,
    lemma_select_next,
    lemma_take_next,
    select,
    text_paths,
    Path,
    PathMap,
    PathSet,
};
use crate::text::{has_prefix, starts_with};
use super::state::LodState;

verus! {

/// The entities that `entities` has under `paths`, path by path.
pub open spec fn entities_under(entities: Map<Path, Vec<u64>>, paths: Seq<Path>) -> Seq<u64>
    decreases paths.len(),
{
    if paths.len() == 0 {
        Seq::empty()
    } else {
        let rest = entities_under(entities, paths.drop_last());
        if entities.contains_key(paths.last()) {
            rest + entities[paths.last()]@
        } else {
            rest
        }
    }
}

/// The collider entities that `colliders` has under `paths`, path by path.
pub open spec fn colliders_under(colliders: Map<Path, u64>, paths: Seq<Path>) -> Seq<u64>
    decreases paths.len(),
{
    if paths.len() == 0 {
        Seq::empty()
    } else {
        let rest = colliders_under(colliders, paths.drop_last());
        if colliders.contains_key(paths.last()) {
            rest.push(colliders[paths.last()])
        } else {
            rest
        }
    }
}

/// The paths that start with some member of `roots`.
pub open spec fn under_any(roots: Set<Path>) -> Set<Path> {
    Set::new(|p: Path| exists|r: Path| #[trigger] roots.contains(r) && starts_with(p, r))
}

impl<O, D> LodState<O, D> {
    /// The loaded nodes that nothing holds any longer.
    pub open spec fn gone_nodes(&self, retained: Set<Path>) -> Seq<Path> {
        select(self.loaded_nodes.keys(), retained.complement())
    }

    /// The nodes whose data nothing holds any longer.
    pub open spec fn stale_data(&self, retained: Set<Path>, hosts: Set<Path>) -> Seq<Path> {
        select(self.node_data.keys(), retained.union(hosts).complement())
    }

    /// The cached bulks that nothing holds any longer; the root bulk always stays.
    pub open spec fn gone_bulks(&self, retained: Set<Path>) -> Seq<Path> {
        select(self.bulks.keys(), retained.insert(Seq::empty()).complement())
    }

    /// Whether `after` is what is left once all that is neither in `nodes`, nor in `bulks`,
    /// nor in `hosts` is dropped.
    pub open spec fn unloads_to(
        &self,
        nodes: Set<Path>,
        bulks: Set<Path>,
        hosts: Set<Path>,
        after: &Self,
    ) -> bool {
        let gone = self.gone_nodes(nodes).to_set();
        let stale = self.stale_data(nodes, hosts).to_set();
        let gone_bulks = self.gone_bulks(bulks).to_set();
        &&& after.loaded_nodes@ == self.loaded_nodes@.intersect(nodes)
        &&& after.node_entities@ == self.node_entities@.remove_keys(gone)
        &&& after.node_data@ == self.node_data@.remove_keys(stale)
        &&& after.physics_colliders@ == self.physics_colliders@.remove_keys(stale)
        &&& after.bulks@ == self.bulks@.remove_keys(gone_bulks)
        &&& after.failed_bulks@ == self.failed_bulks@.difference(gone_bulks)
        &&& after.node_obbs@ == self.node_obbs@.remove_keys(under_any(gone_bulks))
        &&& after.physics_target_paths == self.physics_target_paths
        &&& after.node_last_seen == self.node_last_seen
        &&& after.bulk_last_seen == self.bulk_last_seen
    }
}

/// The members of `set` outside `retained`.
fn members_outside(set: &PathSet, retained: &PathSet) -> (gone: Vec<String>)
    ensures
        text_paths(gone@) == select(set.keys(), retained@.complement()),
        text_paths(gone@).no_duplicates(),
        text_paths(gone@).to_set() == set@.difference(retained@),
{
    let n: usize = set.len();
    let ghost keys = set.keys();
    let ghost wanted = retained@.complement();
    let mut gone: Vec<String> = Vec::new();
    let mut i: usize = 0;
    assert(text_paths(gone@) =~= select(keys.take(0), wanted));
    while i < n
        invariant
            i <= n,
            n == keys.len(),
            keys == set.keys(),
            wanted == retained@.complement(),
            text_paths(gone@) == select(keys.take(i as int), wanted),
        decreases n - i,
    {
        let key = set.key_at(i);
        let ghost before = text_paths(gone@);
        proof {
            lemma_select_next(keys, wanted, i as int);
        }
        if !retained.contains(key.as_str()) {
            gone.push(key.clone());
            assert(text_paths(gone@) =~= before.push(key@));
        }
        i = i + 1;
    }
    proof {
        assert(keys.take(n as int) =~= keys);
        lemma_select_distinct(keys, wanted);
        lemma_select_members(keys, wanted);
        assert forall|q: Path| text_paths(gone@).to_set().contains(q) <==> set@.difference(
            retained@,
        ).contains(q) by {
            assert(keys.to_set().contains(q) <==> set@.contains(q));
        }
        assert(text_paths(gone@).to_set() =~= set@.difference(retained@));
    }
    gone
}

/// The keys of `map` that are in neither of two sets.
fn keys_outside<V>(map: &PathMap<V>, one: &PathSet, other: &PathSet) -> (gone: Vec<String>)
    ensures
        text_paths(gone@) == select(map.keys(), one@.union(other@).complement()),
        text_paths(gone@).no_duplicates(),
        text_paths(gone@).to_set() == map@.dom().difference(one@.union(other@)),
{
    let n: usize = map.len();
    let ghost keys = map.keys();
    let ghost wanted = one@.union(other@).complement();
    let mut gone: Vec<String> = Vec::new();
    let mut i: usize = 0;
    assert(text_paths(gone@) =~= select(keys.take(0), wanted));
    while i < n
        invariant
            i <= n,
            n == keys.len(),
            keys == map.keys(),
            wanted == one@.union(other@).complement(),
            text_paths(gone@) == select(keys.take(i as int), wanted),
        decreases n - i,
    {
        let key = map.key_at(i);
        let ghost before = text_paths(gone@);
        proof {
            lemma_select_next(keys, wanted, i as int);
        }
        if !one.contains(key.as_str()) && !other.contains(key.as_str()) {
            gone.push(key.clone());
            assert(text_paths(gone@) =~= before.push(key@));
        }
        i = i + 1;
    }
    proof {
        assert(keys.take(n as int) =~= keys);
        lemma_select_distinct(keys, wanted);
        lemma_select_members(keys, wanted);
        assert forall|q: Path| text_paths(gone@).to_set().contains(q) <==> map@.dom().difference(
            one@.union(other@),
        ).contains(q) by {
            assert(keys.to_set().contains(q) <==> map@.dom().contains(q));
        }
        assert(text_paths(gone@).to_set() =~= map@.dom().difference(one@.union(other@)));
    }
    gone
}

/// The keys of `map` that are not in `kept`.
pub(crate) fn members_outside_keys<V>(map: &PathMap<V>, kept: &PathSet) -> (gone: Vec<String>)
    ensures
        text_paths(gone@) == select(map.keys(), kept@.complement()),
        text_paths(gone@).no_duplicates(),
        text_paths(gone@).to_set() == map@.dom().difference(kept@),
{
    let none = PathSet::new();
    assert(kept@.union(none@) =~= kept@);
    keys_outside(map, kept, &none)
}

/// The keys of `map` that start with one of `roots`.
fn keys_under<V>(map: &PathMap<V>, roots: &Vec<String>) -> (gone: Vec<String>)
    ensures
        text_paths(gone@).to_set() == map@.dom().intersect(
            under_any(text_paths(roots@).to_set()),
        ),
{
    let n: usize = map.len();
    let ghost keys = map.keys();
    let ghost tops = text_paths(roots@);
    let ghost wanted = under_any(tops.to_set());
    let mut gone: Vec<String> = Vec::new();
    let mut i: usize = 0;
    assert(text_paths(gone@) =~= select(keys.take(0), wanted));
    while i < n
        invariant
            i <= n,
            n == keys.len(),
            keys == map.keys(),
            tops == text_paths(roots@),
            wanted == under_any(tops.to_set()),
            text_paths(gone@) == select(keys.take(i as int), wanted),
        decreases n - i,
    {
        let key = map.key_at(i);
        let ghost before = text_paths(gone@);
        let mut found = false;
        let mut j: usize = 0;
        while j < roots.len() && !found
            invariant
                j <= roots@.len(),
                tops == text_paths(roots@),
                found ==> exists|r: Path| #[trigger] tops.to_set().contains(r) && starts_with(key@, r),
                !found ==> forall|m: int| 0 <= m < j ==> !starts_with(key@, #[trigger] tops[m]),
            decreases roots@.len() - j,
        {
            if has_prefix(key.as_str(), roots[j].as_str()) {
                assert(tops[j as int] == roots@[j as int]@);
                assert(tops.contains(tops[j as int]));
                assert(tops.to_set().contains(tops[j as int]));
                found = true;
            }
            j = j + 1;
        }
        proof {
            lemma_select_next(keys, wanted, i as int);
            if !found {
                assert forall|r: Path| #[trigger] tops.to_set().contains(r) implies !starts_with(
                    key@,
                    r,
                ) by {
                    let m = tops.index_of(r);
                    assert(tops[m] == r);
                }
            }
        }
        if found {
            gone.push(key.clone());
            assert(text_paths(gone@) =~= before.push(key@));
        }
        i = i + 1;
    }
    proof {
        assert(keys.take(n as int) =~= keys);
        lemma_select_members(keys, wanted);
        assert forall|q: Path| text_paths(gone@).to_set().contains(q) <==> map@.dom().intersect(
            wanted,
        ).contains(q) by {
            assert(keys.to_set().contains(q) <==> map@.dom().contains(q));
        }
        assert(text_paths(gone@).to_set() =~= map@.dom().intersect(wanted));
    }
    gone
}

/// Takes the entities under `paths` out of `entities` and hands them over.
fn take_entities(entities: &mut PathMap<Vec<u64>>, paths: &Vec<String>, despawn: &mut Vec<u64>)
    requires
        text_paths(paths@).no_duplicates(),
    ensures
        final(entities)@ == old(entities)@.remove_keys(text_paths(paths@).to_set()),
        final(despawn)@ == old(despawn)@ + entities_under(old(entities)@, text_paths(paths@)),
{
    let ghost keys = text_paths(paths@);
    let ghost before = entities@;
    let ghost first = despawn@;
    let mut i: usize = 0;
    proof {
        assert(before.remove_keys(keys.take(0).to_set()) =~= before);
        assert(despawn@ =~= first + entities_under(before, keys.take(0)));
    }
    while i < paths.len()
        invariant
            i <= paths@.len(),
            keys == text_paths(paths@),
            keys.no_duplicates(),
            entities@ == before.remove_keys(keys.take(i as int).to_set()),
            despawn@ == first + entities_under(before, keys.take(i as int)),
        decreases paths@.len() - i,
    {
        let taken = entities.remove(paths[i].as_str());
        proof {
            let k = keys[i as int];
            assert(k == paths@[i as int]@);
            assert(!keys.take(i as int).contains(k)) by {
                if keys.take(i as int).contains(k) {
                    let j = keys.take(i as int).index_of(k);
                    assert(keys[j] == keys[i as int]);
                }
            }
            assert(keys.take(i + 1).drop_last() =~= keys.take(i as int));
            lemma_take_next(keys, i as int);
            assert(entities@ =~= before.remove_keys(keys.take(i + 1).to_set()));
        }
        match taken {
            Some(mut list) => {
                despawn.append(&mut list);
                assert(despawn@ =~= first + entities_under(before, keys.take(i + 1)));
            },
            None => {},
        }
        i = i + 1;
    }
    assert(keys.take(keys.len() as int) =~= keys);
}

/// Takes the colliders under `paths` out of `colliders` and hands them over.
pub(crate) fn take_colliders(colliders: &mut PathMap<u64>, paths: &Vec<String>, despawn: &mut Vec<u64>)
    requires
        text_paths(paths@).no_duplicates(),
    ensures
        final(colliders)@ == old(colliders)@.remove_keys(text_paths(paths@).to_set()),
        final(despawn)@ == old(despawn)@ + colliders_under(old(colliders)@, text_paths(paths@)),
{
    let ghost keys = text_paths(paths@);
    let ghost before = colliders@;
    let ghost first = despawn@;
    let mut i: usize = 0;
    proof {
        assert(before.remove_keys(keys.take(0).to_set()) =~= before);
        assert(despawn@ =~= first + colliders_under(before, keys.take(0)));
    }
    while i < paths.len()
        invariant
            i <= paths@.len(),
            keys == text_paths(paths@),
            keys.no_duplicates(),
            colliders@ == before.remove_keys(keys.take(i as int).to_set()),
            despawn@ == first + colliders_under(before, keys.take(i as int)),
        decreases paths@.len() - i,
    {
        let taken = colliders.remove(paths[i].as_str());
        proof {
            let k = keys[i as int];
            assert(k == paths@[i as int]@);
            assert(!keys.take(i as int).contains(k)) by {
                if keys.take(i as int).contains(k) {
                    let j = keys.take(i as int).index_of(k);
                    assert(keys[j] == keys[i as int]);
                }
            }
            assert(keys.take(i + 1).drop_last() =~= keys.take(i as int));
            lemma_take_next(keys, i as int);
            assert(colliders@ =~= before.remove_keys(keys.take(i + 1).to_set()));
        }
        match taken {
            Some(entity) => {
                despawn.push(entity);
                assert(despawn@ =~= first + colliders_under(before, keys.take(i + 1)));
            },
            None => {},
        }
        i = i + 1;
    }
    assert(keys.take(keys.len() as int) =~= keys);
}

/// Drops every node, bulk and cached datum that nothing holds any longer.
///
/// `nodes` and `bulks` are what either walk asked for within the grace period; data stays for
/// the collider hosts in `hosts` too. Hands back the entities to despawn: those of the dropped
/// nodes, then the colliders whose data went.
pub fn unload_obsolete<O, D>(
    state: &mut LodState<O, D>,
    nodes: &PathSet,
    bulks: &PathSet,
    hosts: &PathSet,
) -> (despawn: Vec<u64>)
    requires
        old(state).wf(),
    ensures
        final(state).wf(),
        old(state).unloads_to(nodes@, bulks@, hosts@, final(state)),
        final(state).loading_nodes == old(state).loading_nodes,
        final(state).loading_bulks == old(state).loading_bulks,
        despawn@ == entities_under(old(state).node_entities@, old(state).gone_nodes(nodes@))
            + colliders_under(
            old(state).physics_colliders@,
            old(state).stale_data(nodes@, hosts@),
        ),
{
    let mut despawn: Vec<u64> = Vec::new();
    let gone = members_outside(&state.loaded_nodes, nodes);
    state.loaded_nodes.remove_all(&gone);
    take_entities(&mut state.node_entities, &gone, &mut despawn);
    assert(state.loaded_nodes@ =~= old(state).loaded_nodes@.intersect(nodes@));
    let stale = keys_outside(&state.node_data, nodes, hosts);
    state.node_data.remove_all(&stale);
    take_colliders(&mut state.physics_colliders, &stale, &mut despawn);
    let mut kept_bulks = bulks.duplicate();
    kept_bulks.insert(String::new());
    let none = PathSet::new();
    let gone_bulks = keys_outside(&state.bulks, &kept_bulks, &none);
    proof {
        assert(kept_bulks@.union(none@) =~= bulks@.insert(Seq::empty()));
    }
    let lost = keys_under(&state.node_obbs, &gone_bulks);
    state.bulks.remove_all(&gone_bulks);
    state.bulk_node_indices.remove_all(&gone_bulks);
    state.node_obbs.remove_all(&lost);
    state.failed_bulks.remove_all(&gone_bulks);
    proof {
        let dropped = text_paths(gone_bulks@).to_set();
        assert(state.node_obbs@ =~= old(state).node_obbs@.remove_keys(under_any(dropped)));
        assert(state.bulk_node_indices@.dom() =~= state.bulks@.dom());
        assert(despawn@ =~= entities_under(
            old(state).node_entities@,
            old(state).gone_nodes(nodes@),
        ) + colliders_under(old(state).physics_colliders@, old(state).stale_data(nodes@, hosts@)));
    }
    despawn
}

} // verus!
