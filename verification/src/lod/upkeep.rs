//! What an update is for: what stays, what goes, and what is asked for.
//!
//! Each law speaks of the caches before and after, and of what the two walks met.

use vstd::prelude::*;
use crate::path_map::{lemma_select_members, text_paths, Path, PathSet};
use crate::text::starts_with;
use super::laws::{lemma_no_bulk_is_loaded_twice, lemma_no_node_is_loaded_twice};
use super::model::{BulkMetadata, FrameView};
use super::physics::PhysicsBfsResult;
use super::render::{node_paths, pair_paths, BfsResult};
use super::requests::{
    asks_for_bulk, asks_for_node, first_seen, lemma_first_seen, lemma_in_either,
    update_lod_requests, LodActions, LodScratch,
};
use super::retention::{colliders_under, entities_under, under_any, unload_obsolete};
use super::snapshot::{
    at_depth, drawn_paths, populate_snapshot, LodSnapshot, LodSnapshotRequest, SnapshotNodeState,
};
use super::state::LodState;

verus! {

/// Whether every collection that an update thins out lists what it holds.
pub open spec fn all_listed<O, D>(state: LodState<O, D>) -> bool {
    &&& state.loaded_nodes.listed()
    &&& state.node_data.listed()
    &&& state.bulks.listed()
}

/// Whether an update from `before` to `after` found what `found` holds, with the outcome of both
/// walks written down in `noted`.
spec fn went<O, D>(
    before: LodState<O, D>,
    after: LodState<O, D>,
    left: LodScratch<O>,
    view: FrameView,
    now: u64,
    grace: u64,
    slots: usize,
    wanted: bool,
    shot: LodSnapshot<O>,
    actions: LodActions,
    found: LodScratch<O>,
    noted: LodState<O, D>,
) -> bool {
    &&& before.render_finds(&view, &found.render_result)
    &&& before.physics_finds(&view, &found.physics_result)
    &&& found.drains_to(&left)
    &&& before.notes(&view, now, grace, &noted)
    &&& noted.settles(before.octree(&view), before.hosts(&view), &found, &after, &actions)
    &&& wanted ==> noted.pictured(&found.render_result, &found.physics_result, slots, &shot)
}

proof fn lemma_update_went<O: Copy, D>(
    state: &mut LodState<O, D>,
    scratch: &mut LodScratch<O>,
    view: FrameView,
    now: u64,
    grace: u64,
    slots: usize,
    request: &mut LodSnapshotRequest,
    snapshot: &mut LodSnapshot<O>,
    actions: LodActions,
)
    requires
        call_ensures(
            update_lod_requests::<O, D>,
            (state, scratch, &view, now, grace, slots, request, snapshot),
            actions,
        ),
    ensures
        exists|found: LodScratch<O>, noted: LodState<O, D>| #[trigger]
            went(
                *old(state),
                *final(state),
                *final(scratch),
                view,
                now,
                grace,
                slots,
                old(request).wanted,
            *final(snapshot),
                actions,
                found,
                noted,
            ),
{
    let (found, noted) = choose|found: LodScratch<O>, noted: LodState<O, D>|
        {
            &&& old(state).render_finds(&view, &found.render_result)
            &&& old(state).physics_finds(&view, &found.physics_result)
            &&& #[trigger] found.drains_to(final(scratch))
            &&& #[trigger] old(state).notes(&view, now, grace, &noted)
            &&& noted.settles(
                old(state).octree(&view),
                old(state).hosts(&view),
                &found,
                final(state),
                &actions,
            )
            &&& old(request).wanted ==> noted.pictured(
                &found.render_result,
                &found.physics_result,
                slots,
                final(snapshot),
            )
        };
    assert(went(
        *old(state),
        *final(state),
        *final(scratch),
        view,
        now,
        grace,
        slots,
        old(request).wanted,
            *final(snapshot),
        actions,
        found,
        noted,
    ));
}

/// A node stays as long as a walk meets it, for the grace period after a walk last did, and while
/// it carries a collider: loaded, with its data and its entities. Anything else goes.
pub proof fn lemma_nodes_stay_for_the_grace_period<O: Copy, D>(
    state: &mut LodState<O, D>,
    scratch: &mut LodScratch<O>,
    view: FrameView,
    now: u64,
    grace: u64,
    slots: usize,
    request: &mut LodSnapshotRequest,
    snapshot: &mut LodSnapshot<O>,
    actions: LodActions,
    p: Path,
)
    requires
        call_ensures(
            update_lod_requests::<O, D>,
            (state, scratch, &view, now, grace, slots, request, snapshot),
            actions,
        ),
        all_listed(*old(state)),
    ensures
        ({
            let before = *old(state);
            let after = *final(state);
            let met = final(scratch).render_result.potential_nodes@.contains(p) || final(scratch).physics_result.potential_nodes@.contains(p);
            let recent = before.node_last_seen@.contains_key(p) && before.node_last_seen@[p] + grace
                >= now;
            let stays = met || recent || final(scratch).physics_result.collider_paths@.contains(p);
            &&& after.node_last_seen@.contains_key(p) <==> met || recent
            &&& met ==> after.node_last_seen@[p] == now
            &&& recent && !met ==> after.node_last_seen@[p] == before.node_last_seen@[p]
            &&& after.loaded_nodes@.contains(p) <==> before.loaded_nodes@.contains(p) && stays
            &&& after.node_data@.contains_key(p) <==> before.node_data@.contains_key(p) && stays
            &&& after.node_data@.contains_key(p) ==> after.node_data@[p] == before.node_data@[p]
            &&& after.node_entities@.contains_key(p) <==> before.node_entities@.contains_key(p) && (
            stays || !before.loaded_nodes@.contains(p))
            &&& after.node_entities@.contains_key(p) ==> after.node_entities@[p]
                == before.node_entities@[p]
            &&& after.physics_colliders@.contains_key(p) <==> before.physics_colliders@.contains_key(
                p,
            ) && (stays || !before.node_data@.contains_key(p))
            &&& after.physics_colliders@.contains_key(p) ==> after.physics_colliders@[p]
                == before.physics_colliders@[p]
            &&& after.physics_target_paths@.contains(p) <==> final(scratch).physics_result.collider_paths@.contains(p)
        }),
{
    lemma_update_went(state, scratch, view, now, grace, slots, request, snapshot, actions);
    let (found, noted) = choose|found: LodScratch<O>, noted: LodState<O, D>| #[trigger]
        went(
            *old(state),
            *final(state),
            *final(scratch),
            view,
            now,
            grace,
            slots,
            old(request).wanted,
            *final(snapshot),
            actions,
            found,
            noted,
        );
    let hosts = old(state).hosts(&view);
    let nodes = noted.retained_nodes(hosts);
    lemma_select_members(noted.loaded_nodes.keys(), nodes.complement());
    lemma_select_members(noted.node_data.keys(), nodes.union(hosts).complement());
    assert(noted.loaded_nodes.keys().to_set().contains(p) <==> noted.loaded_nodes@.contains(p));
    assert(noted.node_data.keys().to_set().contains(p) <==> noted.node_data@.dom().contains(p));
    assert(noted.gone_nodes(nodes).to_set().contains(p) <==> noted.gone_nodes(nodes).contains(p));
    assert(noted.stale_data(nodes, hosts).to_set().contains(p) <==> noted.stale_data(
        nodes,
        hosts,
    ).contains(p));
}

/// A bulk stays as long as a walk needs it and for the grace period after a walk last did; the root
/// bulk always stays. With a bulk that goes, its failure is forgotten.
pub proof fn lemma_bulks_stay_for_the_grace_period<O: Copy, D>(
    state: &mut LodState<O, D>,
    scratch: &mut LodScratch<O>,
    view: FrameView,
    now: u64,
    grace: u64,
    slots: usize,
    request: &mut LodSnapshotRequest,
    snapshot: &mut LodSnapshot<O>,
    actions: LodActions,
    p: Path,
)
    requires
        call_ensures(
            update_lod_requests::<O, D>,
            (state, scratch, &view, now, grace, slots, request, snapshot),
            actions,
        ),
        all_listed(*old(state)),
    ensures
        ({
            let before = *old(state);
            let after = *final(state);
            let needed = final(scratch).render_result.potential_bulks@.contains(p) || final(scratch).physics_result.potential_bulks@.contains(p);
            let recent = before.bulk_last_seen@.contains_key(p) && before.bulk_last_seen@[p] + grace
                >= now;
            let stays = needed || recent || p.len() == 0;
            &&& after.bulk_last_seen@.contains_key(p) <==> needed || recent
            &&& needed ==> after.bulk_last_seen@[p] == now
            &&& recent && !needed ==> after.bulk_last_seen@[p] == before.bulk_last_seen@[p]
            &&& after.bulks@.contains_key(p) <==> before.bulks@.contains_key(p) && stays
            &&& after.bulks@.contains_key(p) ==> after.bulks@[p] == before.bulks@[p]
            &&& after.failed_bulks@.contains(p) <==> before.failed_bulks@.contains(p) && (stays
                || !before.bulks@.contains_key(p))
        }),
{
    lemma_update_went(state, scratch, view, now, grace, slots, request, snapshot, actions);
    let (found, noted) = choose|found: LodScratch<O>, noted: LodState<O, D>| #[trigger]
        went(
            *old(state),
            *final(state),
            *final(scratch),
            view,
            now,
            grace,
            slots,
            old(request).wanted,
            *final(snapshot),
            actions,
            found,
            noted,
        );
    let bulks = noted.bulk_last_seen@.dom();
    let root = Seq::<char>::empty();
    lemma_select_members(noted.bulks.keys(), bulks.insert(root).complement());
    assert(noted.bulks.keys().to_set().contains(p) <==> noted.bulks@.dom().contains(p));
    assert(noted.gone_bulks(bulks).to_set().contains(p) <==> noted.gone_bulks(bulks).contains(p));
    if p.len() == 0 {
        assert(p =~= root);
    }
}

/// The volumes of nodes that a walk met are known from then on, until a bulk above them goes; a
/// volume once known does not change.
pub proof fn lemma_volumes_stay_known<O: Copy, D>(
    state: &mut LodState<O, D>,
    scratch: &mut LodScratch<O>,
    view: FrameView,
    now: u64,
    grace: u64,
    slots: usize,
    request: &mut LodSnapshotRequest,
    snapshot: &mut LodSnapshot<O>,
    actions: LodActions,
    p: Path,
)
    requires
        call_ensures(
            update_lod_requests::<O, D>,
            (state, scratch, &view, now, grace, slots, request, snapshot),
            actions,
        ),
        all_listed(*old(state)),
    ensures
        ({
            let before = *old(state);
            let after = *final(state);
            let met = pair_paths(final(scratch).render_result.discovered_obbs@).contains(p)
                || final(scratch).physics_result.potential_nodes@.contains(p);
            let lost = exists|b: Path| #[trigger]
                before.bulks@.contains_key(b) && !after.bulks@.contains_key(b) && starts_with(p, b);
            &&& after.node_obbs@.contains_key(p) <==> (before.node_obbs@.contains_key(p) || met)
                && !lost
            &&& after.node_obbs@.contains_key(p) && before.node_obbs@.contains_key(p)
                ==> after.node_obbs@[p] == before.node_obbs@[p]
            &&& after.node_obbs@.contains_key(p) && !before.node_obbs@.contains_key(p)
                ==> after.node_obbs@[p] == before.octree(&view).node(p).obb
        }),
{
    lemma_update_went(state, scratch, view, now, grace, slots, request, snapshot, actions);
    let (found, noted) = choose|found: LodScratch<O>, noted: LodState<O, D>| #[trigger]
        went(
            *old(state),
            *final(state),
            *final(scratch),
            view,
            now,
            grace,
            slots,
            old(request).wanted,
            *final(snapshot),
            actions,
            found,
            noted,
        );
    let bulks = noted.bulk_last_seen@.dom();
    let root = Seq::<char>::empty();
    let gone = noted.gone_bulks(bulks);
    lemma_select_members(noted.bulks.keys(), bulks.insert(root).complement());
    assert forall|b: Path| #[trigger] gone.to_set().contains(b) <==> old(state).bulks@.contains_key(b)
        && !final(state).bulks@.contains_key(b) by {
        assert(noted.bulks.keys().to_set().contains(b) <==> noted.bulks@.dom().contains(b));
        assert(gone.to_set().contains(b) <==> gone.contains(b));
    }
    if under_any(gone.to_set()).contains(p) {
        let b = choose|b: Path| #[trigger] gone.to_set().contains(b) && starts_with(p, b);
        assert(old(state).bulks@.contains_key(b));
    }
}

/// An update asks only for what is missing and wanted, each once: a node that a walk met, whose data
/// exists and is neither loaded nor on its way. It asks with the epochs and the format that the bulk
/// gives, and what it asks for is on its way from then on.
pub proof fn lemma_requests_are_wanted<O: Copy, D>(
    state: &mut LodState<O, D>,
    scratch: &mut LodScratch<O>,
    view: FrameView,
    now: u64,
    grace: u64,
    slots: usize,
    request: &mut LodSnapshotRequest,
    snapshot: &mut LodSnapshot<O>,
    actions: LodActions,
    i: int,
    j: int,
)
    requires
        call_ensures(
            update_lod_requests::<O, D>,
            (state, scratch, &view, now, grace, slots, request, snapshot),
            actions,
        ),
        0 <= i < actions.node_requests@.len(),
        0 <= j < actions.node_requests@.len(),
    ensures
        ({
            let before = *old(state);
            let asked = actions.node_requests@[i];
            let p = asked.path@;
            let node = before.octree(&view).node(p);
            &&& final(scratch).render_result.potential_nodes@.contains(p) || final(scratch).physics_result.potential_nodes@.contains(p)
            &&& node.has_data
            &&& !before.loaded_nodes@.contains(p)
            &&& !before.loading_nodes@.contains(p)
            &&& final(state).loading_nodes@.contains(p)
            &&& asked.epoch == node.epoch
            &&& asked.texture_format == node.texture_format
            &&& asked.imagery_epoch == node.imagery_epoch
            &&& i != j ==> actions.node_requests@[j].path@ != p
        }),
{
    lemma_update_went(state, scratch, view, now, grace, slots, request, snapshot, actions);
    let (found, noted) = choose|found: LodScratch<O>, noted: LodState<O, D>| #[trigger]
        went(
            *old(state),
            *final(state),
            *final(scratch),
            view,
            now,
            grace,
            slots,
            old(request).wanted,
            *final(snapshot),
            actions,
            found,
            noted,
        );
    lemma_no_node_is_loaded_twice(
        *old(state),
        noted,
        *final(state),
        &view,
        now,
        grace,
        found,
        actions,
        i,
        j,
    );
    let a = node_paths(found.render_result.nodes_to_load@);
    let b = node_paths(found.physics_result.nodes_to_load@);
    let wished = first_seen(a + b);
    lemma_first_seen(a + b);
    assert(asks_for_node(old(state).octree(&view), actions.node_requests@[i], wished[i]));
    assert(wished.contains(wished[i]));
    assert(wished.to_set().contains(wished[i]));
    assert((a + b).to_set().contains(wished[i]));
    lemma_in_either(a, b, wished[i]);
}

/// An update asks for as much as fits: unless the limit of loads is reached, all that is wanted and
/// missing is on its way afterwards. What the render walk wants comes first. Nothing else changes what
/// is on its way.
pub proof fn lemma_all_that_fits_is_asked_for<O: Copy, D>(
    state: &mut LodState<O, D>,
    scratch: &mut LodScratch<O>,
    view: FrameView,
    now: u64,
    grace: u64,
    slots: usize,
    request: &mut LodSnapshotRequest,
    snapshot: &mut LodSnapshot<O>,
    actions: LodActions,
    p: Path,
    q: Path,
)
    requires
        call_ensures(
            update_lod_requests::<O, D>,
            (state, scratch, &view, now, grace, slots, request, snapshot),
            actions,
        ),
    ensures
        ({
            let before = *old(state);
            let after = *final(state);
            let tree = before.octree(&view);
            let seen = final(scratch).render_result.potential_nodes@.contains(p);
            let felt = final(scratch).physics_result.potential_nodes@.contains(p);
            let missing = tree.node(p).has_data && !before.loaded_nodes@.contains(p)
                && !before.loading_nodes@.contains(p);
            let asked = actions.node_requests@.len();
            &&& asked > 0 ==> before.loading_nodes@.len() + asked <= 20
            &&& (seen || felt) && missing && before.loading_nodes@.len() + asked < 20
                ==> after.loading_nodes@.contains(p)
            &&& seen && missing && after.loading_nodes@.contains(q)
                && !before.loading_nodes@.contains(q) && !final(scratch).render_result.potential_nodes@.contains(q) ==> after.loading_nodes@.contains(p)
            &&& before.loading_nodes@.contains(p) ==> after.loading_nodes@.contains(p)
            &&& after.loading_nodes@.contains(q) && !before.loading_nodes@.contains(q)
                ==> exists|i: int|
                0 <= i < asked && (#[trigger] actions.node_requests@[i]).path@ == q
        }),
{
    lemma_update_went(state, scratch, view, now, grace, slots, request, snapshot, actions);
    let (found, noted) = choose|found: LodScratch<O>, noted: LodState<O, D>| #[trigger]
        went(
            *old(state),
            *final(state),
            *final(scratch),
            view,
            now,
            grace,
            slots,
            old(request).wanted,
            *final(snapshot),
            actions,
            found,
            noted,
        );
    let a = node_paths(found.render_result.nodes_to_load@);
    let b = node_paths(found.physics_result.nodes_to_load@);
    let wished = first_seen(a + b);
    let k = actions.node_requests@.len() as int;
    lemma_first_seen(a + b);
    lemma_first_come_first(a, b);
    assert(wished.to_set().contains(p) <==> (a + b).to_set().contains(p));
    if a.contains(p) {
        assert((a + b)[a.index_of(p)] == p);
    }
    if b.contains(p) {
        assert((a + b)[a.len() + b.index_of(p)] == p);
    }
    if wished.contains(p) {
        let m = wished.index_of(p);
        if m < k {
            assert(wished.take(k)[m] == p);
            assert(wished.take(k).to_set().contains(p));
        }
    }
    if wished.take(k).to_set().contains(q) {
        let m = wished.take(k).index_of(q);
        assert(wished[m] == q);
        assert(asks_for_node(old(state).octree(&view), actions.node_requests@[m], wished[m]));
        let ahead = first_seen(a);
        lemma_first_seen(a);
        if a.contains(p) && !a.contains(q) {
            assert(ahead.to_set().contains(p) <==> a.to_set().contains(p));
            let n = ahead.index_of(p);
            assert(wished[n] == p);
            if m < ahead.len() {
                assert(ahead[m] == q);
                assert(ahead.contains(q));
                assert(ahead.to_set().contains(q));
                assert(a.to_set().contains(q));
            }
            assert(wished.take(k)[n] == p);
            assert(wished.take(k).to_set().contains(p));
        }
    }
}

/// Of two lists, what the first one holds comes first.
proof fn lemma_first_come_first(a: Seq<Path>, b: Seq<Path>)
    ensures
        first_seen(a).len() <= first_seen(a + b).len(),
        first_seen(a + b).take(first_seen(a).len() as int) == first_seen(a),
        forall|i: int| 0 <= i < first_seen(a).len() ==> first_seen(a + b)[i] == first_seen(a)[i],
    decreases b.len(),
{
    let all = a + b;
    let ahead = first_seen(a);
    if b.len() == 0 {
        assert(all =~= a);
    } else {
        let rest = b.drop_last();
        assert(all.drop_last() =~= a + rest);
        lemma_first_come_first(a, rest);
    }
    assert(first_seen(all).take(ahead.len() as int) =~= ahead);
}

/// The same of bulks: an update asks for a bulk that a walk needs, and that is neither cached, nor on
/// its way, nor known to fail, once, with the epoch that the parent bulk gives.
pub proof fn lemma_bulk_requests_are_wanted<O: Copy, D>(
    state: &mut LodState<O, D>,
    scratch: &mut LodScratch<O>,
    view: FrameView,
    now: u64,
    grace: u64,
    slots: usize,
    request: &mut LodSnapshotRequest,
    snapshot: &mut LodSnapshot<O>,
    actions: LodActions,
    i: int,
    j: int,
)
    requires
        call_ensures(
            update_lod_requests::<O, D>,
            (state, scratch, &view, now, grace, slots, request, snapshot),
            actions,
        ),
        0 <= i < actions.bulk_requests@.len(),
        0 <= j < actions.bulk_requests@.len(),
    ensures
        ({
            let before = *old(state);
            let asked = actions.bulk_requests@[i];
            let p = asked.path@;
            &&& final(scratch).render_result.potential_bulks@.contains(p) || final(scratch).physics_result.potential_bulks@.contains(p)
            &&& !before.bulks@.contains_key(p)
            &&& !before.loading_bulks@.contains(p)
            &&& !before.failed_bulks@.contains(p)
            &&& final(state).loading_bulks@.contains(p)
            &&& asked.epoch == before.bulks@[p.take(p.len() - 4)].child_bulk_paths@[p.skip(p.len() - 4)]
            &&& i != j ==> actions.bulk_requests@[j].path@ != p
        }),
{
    lemma_update_went(state, scratch, view, now, grace, slots, request, snapshot, actions);
    let (found, noted) = choose|found: LodScratch<O>, noted: LodState<O, D>| #[trigger]
        went(
            *old(state),
            *final(state),
            *final(scratch),
            view,
            now,
            grace,
            slots,
            old(request).wanted,
            *final(snapshot),
            actions,
            found,
            noted,
        );
    lemma_no_bulk_is_loaded_twice(
        *old(state),
        noted,
        *final(state),
        &view,
        now,
        grace,
        found,
        actions,
        i,
        j,
    );
    let a = pair_paths(found.render_result.bulks_to_load@);
    let b = pair_paths(found.physics_result.bulks_to_load@);
    let wished = first_seen(a + b);
    lemma_first_seen(a + b);
    assert(asks_for_bulk(old(state).octree(&view), actions.bulk_requests@[i], wished[i]));
    assert(wished.contains(wished[i]));
    assert(wished.to_set().contains(wished[i]));
    assert((a + b).to_set().contains(wished[i]));
    lemma_in_either(a, b, wished[i]);
}

/// As many bulks are asked for as fit: unless the limit is reached, all that are needed and missing
/// are on their way afterwards.
pub proof fn lemma_all_bulks_that_fit_are_asked_for<O: Copy, D>(
    state: &mut LodState<O, D>,
    scratch: &mut LodScratch<O>,
    view: FrameView,
    now: u64,
    grace: u64,
    slots: usize,
    request: &mut LodSnapshotRequest,
    snapshot: &mut LodSnapshot<O>,
    actions: LodActions,
    p: Path,
)
    requires
        call_ensures(
            update_lod_requests::<O, D>,
            (state, scratch, &view, now, grace, slots, request, snapshot),
            actions,
        ),
    ensures
        ({
            let before = *old(state);
            let after = *final(state);
            let needed = final(scratch).render_result.potential_bulks@.contains(p) || final(scratch).physics_result.potential_bulks@.contains(p);
            let missing = !before.bulks@.contains_key(p) && !before.loading_bulks@.contains(p)
                && !before.failed_bulks@.contains(p);
            let asked = actions.bulk_requests@.len();
            &&& asked > 0 ==> before.loading_bulks@.len() + asked <= 10
            &&& p.len() > 0 && needed && missing && before.loading_bulks@.len() + asked < 10
                ==> after.loading_bulks@.contains(p)
            &&& before.loading_bulks@.contains(p) ==> after.loading_bulks@.contains(p)
        }),
{
    lemma_update_went(state, scratch, view, now, grace, slots, request, snapshot, actions);
    let (found, noted) = choose|found: LodScratch<O>, noted: LodState<O, D>| #[trigger]
        went(
            *old(state),
            *final(state),
            *final(scratch),
            view,
            now,
            grace,
            slots,
            old(request).wanted,
            *final(snapshot),
            actions,
            found,
            noted,
        );
    let a = pair_paths(found.render_result.bulks_to_load@);
    let b = pair_paths(found.physics_result.bulks_to_load@);
    let wished = first_seen(a + b);
    let k = actions.bulk_requests@.len() as int;
    lemma_first_seen(a + b);
    assert(wished.to_set().contains(p) <==> (a + b).to_set().contains(p));
    if a.contains(p) {
        assert((a + b)[a.index_of(p)] == p);
    }
    if b.contains(p) {
        assert((a + b)[a.len() + b.index_of(p)] == p);
    }
    if wished.contains(p) {
        let m = wished.index_of(p);
        if m < k {
            assert(wished.take(k)[m] == p);
            assert(wished.take(k).to_set().contains(p));
        }
    }
}

/// The update uses up its wishes, takes a snapshot if and only if one was asked for, and that once.
pub proof fn lemma_wishes_and_snapshots_are_used_up<O: Copy, D>(
    state: &mut LodState<O, D>,
    scratch: &mut LodScratch<O>,
    view: FrameView,
    now: u64,
    grace: u64,
    slots: usize,
    request: &mut LodSnapshotRequest,
    snapshot: &mut LodSnapshot<O>,
    actions: LodActions,
)
    requires
        call_ensures(
            update_lod_requests::<O, D>,
            (state, scratch, &view, now, grace, slots, request, snapshot),
            actions,
        ),
    ensures
        final(scratch).render_result.nodes_to_load@.len() == 0,
        final(scratch).render_result.bulks_to_load@.len() == 0,
        final(scratch).physics_result.nodes_to_load@.len() == 0,
        final(scratch).physics_result.bulks_to_load@.len() == 0,
        !final(request).wanted,
        !old(request).wanted ==> *final(snapshot) == *old(snapshot),
        old(request).wanted ==> final(snapshot).counters.render_loading
            == old(state).loading_nodes@.len() && final(snapshot).counters.render_loaded
            == old(state).loaded_nodes@.len(),
{
    lemma_update_went(state, scratch, view, now, grace, slots, request, snapshot, actions);
    let (found, noted) = choose|found: LodScratch<O>, noted: LodState<O, D>| #[trigger]
        went(
            *old(state),
            *final(state),
            *final(scratch),
            view,
            now,
            grace,
            slots,
            old(request).wanted,
            *final(snapshot),
            actions,
            found,
            noted,
        );
}

proof fn lemma_entities_under(entities: Map<Path, Vec<u64>>, paths: Seq<Path>, e: u64)
    ensures
        entities_under(entities, paths).contains(e) <==> exists|i: int|
            0 <= i < paths.len() && entities.contains_key(#[trigger] paths[i])
                && entities[paths[i]]@.contains(e),
    decreases paths.len(),
{
    if paths.len() > 0 {
        let rest = paths.drop_last();
        let before = entities_under(entities, rest);
        lemma_entities_under(entities, rest, e);
        if before.contains(e) {
            let i = choose|i: int|
                0 <= i < rest.len() && entities.contains_key(#[trigger] rest[i])
                    && entities[rest[i]]@.contains(e);
            assert(paths[i] == rest[i]);
            let all = entities_under(entities, paths);
            assert(all[before.index_of(e)] == e);
        }
        if entities.contains_key(paths.last()) {
            let own = entities[paths.last()]@;
            let all = before + own;
            if own.contains(e) {
                assert(paths[paths.len() - 1] == paths.last());
                assert(all[before.len() + own.index_of(e)] == e);
            }
            if all.contains(e) {
                let m = all.index_of(e);
                if m < before.len() {
                    assert(before[m] == e);
                } else {
                    assert(own[m - before.len()] == e);
                }
            }
        }
        if exists|i: int|
            0 <= i < paths.len() && entities.contains_key(#[trigger] paths[i])
                && entities[paths[i]]@.contains(e) {
            let i = choose|i: int|
                0 <= i < paths.len() && entities.contains_key(#[trigger] paths[i])
                    && entities[paths[i]]@.contains(e);
            if i < rest.len() {
                assert(rest[i] == paths[i]);
            }
        }
    }
}

proof fn lemma_colliders_under(colliders: Map<Path, u64>, paths: Seq<Path>, e: u64)
    ensures
        colliders_under(colliders, paths).contains(e) <==> exists|i: int|
            0 <= i < paths.len() && colliders.contains_key(#[trigger] paths[i])
                && colliders[paths[i]] == e,
    decreases paths.len(),
{
    if paths.len() > 0 {
        let rest = paths.drop_last();
        let before = colliders_under(colliders, rest);
        lemma_colliders_under(colliders, rest, e);
        let all = colliders_under(colliders, paths);
        if before.contains(e) {
            let i = choose|i: int|
                0 <= i < rest.len() && colliders.contains_key(#[trigger] rest[i])
                    && colliders[rest[i]] == e;
            assert(paths[i] == rest[i]);
            assert(all[before.index_of(e)] == e);
        }
        if colliders.contains_key(paths.last()) {
            assert(paths[paths.len() - 1] == paths.last());
            assert(all[before.len() as int] == colliders[paths.last()]);
            if all.contains(e) {
                let m = all.index_of(e);
                if m < before.len() {
                    assert(before[m] == e);
                }
            }
        }
        if exists|i: int|
            0 <= i < paths.len() && colliders.contains_key(#[trigger] paths[i])
                && colliders[paths[i]] == e {
            let i = choose|i: int|
                0 <= i < paths.len() && colliders.contains_key(#[trigger] paths[i])
                    && colliders[paths[i]] == e;
            if i < rest.len() {
                assert(rest[i] == paths[i]);
            }
        }
    }
}

/// Just the entities of what goes are despawned: those of the nodes that are no longer loaded, and
/// the colliders whose data is gone.
pub proof fn lemma_what_goes_is_despawned<O, D>(
    state: &mut LodState<O, D>,
    nodes: PathSet,
    bulks: PathSet,
    hosts: PathSet,
    despawn: Vec<u64>,
    e: u64,
)
    requires
        call_ensures(unload_obsolete::<O, D>, (state, &nodes, &bulks, &hosts), despawn),
        all_listed(*old(state)),
    ensures
        ({
            let before = *old(state);
            despawn@.contains(e) <==> {
                ||| exists|p: Path| #[trigger]
                    before.loaded_nodes@.contains(p) && !nodes@.contains(p)
                        && before.node_entities@.contains_key(p)
                        && before.node_entities@[p]@.contains(e)
                ||| exists|p: Path| #[trigger]
                    before.node_data@.contains_key(p) && !nodes@.contains(p) && !hosts@.contains(p)
                        && before.physics_colliders@.contains_key(p)
                        && before.physics_colliders@[p] == e
            }
        }),
{
    let before = *old(state);
    let gone = before.gone_nodes(nodes@);
    let stale = before.stale_data(nodes@, hosts@);
    let first = entities_under(before.node_entities@, gone);
    let second = colliders_under(before.physics_colliders@, stale);
    lemma_entities_under(before.node_entities@, gone, e);
    lemma_colliders_under(before.physics_colliders@, stale, e);
    lemma_select_members(before.loaded_nodes.keys(), nodes@.complement());
    lemma_select_members(before.node_data.keys(), nodes@.union(hosts@).complement());
    assert forall|p: Path| gone.contains(p) <==> #[trigger] before.loaded_nodes@.contains(p)
        && !nodes@.contains(p) by {
        assert(before.loaded_nodes.keys().to_set().contains(p) <==> before.loaded_nodes@.contains(
            p,
        ));
    }
    assert forall|p: Path| stale.contains(p) <==> #[trigger] before.node_data@.contains_key(p)
        && !nodes@.contains(p) && !hosts@.contains(p) by {
        assert(before.node_data.keys().to_set().contains(p) <==> before.node_data@.dom().contains(
            p,
        ));
    }
    if despawn@.contains(e) {
        let m = despawn@.index_of(e);
        if m < first.len() {
            assert(first[m] == e);
            let i = choose|i: int|
                0 <= i < gone.len() && before.node_entities@.contains_key(#[trigger] gone[i])
                    && before.node_entities@[gone[i]]@.contains(e);
            assert(gone.contains(gone[i]));
            assert(before.loaded_nodes@.contains(gone[i]));
        } else {
            assert(second[m - first.len()] == e);
            let i = choose|i: int|
                0 <= i < stale.len() && before.physics_colliders@.contains_key(#[trigger] stale[i])
                    && before.physics_colliders@[stale[i]] == e;
            assert(stale.contains(stale[i]));
            assert(before.node_data@.contains_key(stale[i]));
        }
    }
    if exists|p: Path| #[trigger]
        before.loaded_nodes@.contains(p) && !nodes@.contains(p)
            && before.node_entities@.contains_key(p) && before.node_entities@[p]@.contains(e) {
        let p = choose|p: Path| #[trigger]
            before.loaded_nodes@.contains(p) && !nodes@.contains(p)
                && before.node_entities@.contains_key(p) && before.node_entities@[p]@.contains(e);
        assert(gone.contains(p));
        assert(gone[gone.index_of(p)] == p);
        assert(despawn@[first.index_of(e)] == e);
    }
    if exists|p: Path| #[trigger]
        before.node_data@.contains_key(p) && !nodes@.contains(p) && !hosts@.contains(p)
            && before.physics_colliders@.contains_key(p) && before.physics_colliders@[p] == e {
        let p = choose|p: Path| #[trigger]
            before.node_data@.contains_key(p) && !nodes@.contains(p) && !hosts@.contains(p)
                && before.physics_colliders@.contains_key(p) && before.physics_colliders@[p] == e;
        assert(stale.contains(p));
        assert(stale[stale.index_of(p)] == p);
        assert(despawn@[first.len() + second.index_of(e)] == e);
    }
}

/// A chosen node gets a collider as soon as its data is here, unless it has one; no other node
/// does.
pub proof fn lemma_chosen_nodes_get_colliders<O, D>(
    state: LodState<O, D>,
    paths: Vec<String>,
    p: Path,
)
    requires
        call_ensures(LodState::<O, D>::colliders_to_spawn, (&state,), paths),
        state.physics_target_paths.listed(),
    ensures
        (exists|i: int| 0 <= i < paths@.len() && (#[trigger] paths@[i])@ == p) <==> {
            &&& state.physics_target_paths@.contains(p)
            &&& !state.physics_colliders@.contains_key(p)
            &&& state.node_data@.contains_key(p)
        },
{
    let all = text_paths(paths@);
    lemma_select_members(state.physics_target_paths.keys(), state.due_colliders());
    assert(state.physics_target_paths.keys().to_set().contains(p)
        <==> state.physics_target_paths@.contains(p));
    if all.contains(p) {
        let i = all.index_of(p);
        assert(paths@[i]@ == p);
    }
    if exists|i: int| 0 <= i < paths@.len() && (#[trigger] paths@[i])@ == p {
        let i = choose|i: int| 0 <= i < paths@.len() && (#[trigger] paths@[i])@ == p;
        assert(all[i] == p);
    }
}

/// A collider is retired once its node is no longer chosen, and not before.
pub proof fn lemma_colliders_retire_with_their_node<O, D>(
    state: &mut LodState<O, D>,
    despawn: Vec<u64>,
    p: Path,
    e: u64,
)
    requires
        call_ensures(LodState::<O, D>::retire_colliders, (state,), despawn),
        old(state).physics_colliders.listed(),
    ensures
        ({
            let before = old(state).physics_colliders@;
            let chosen = old(state).physics_target_paths@;
            let after = final(state).physics_colliders@;
            &&& after.contains_key(p) <==> before.contains_key(p) && chosen.contains(p)
            &&& after.contains_key(p) ==> after[p] == before[p]
            &&& despawn@.contains(e) <==> exists|q: Path| #[trigger]
                before.contains_key(q) && !chosen.contains(q) && before[q] == e
        }),
{
    let before = old(state).physics_colliders@;
    let chosen = old(state).physics_target_paths@;
    let keys = old(state).physics_colliders.keys();
    let gone = crate::path_map::select(keys, chosen.complement());
    lemma_colliders_under(before, gone, e);
    lemma_select_members(keys, chosen.complement());
    if despawn@.contains(e) {
        let i = choose|i: int|
            0 <= i < gone.len() && before.contains_key(#[trigger] gone[i]) && before[gone[i]] == e;
        assert(gone.contains(gone[i]));
        assert(before.contains_key(gone[i]));
    }
    if exists|q: Path| #[trigger] before.contains_key(q) && !chosen.contains(q) && before[q] == e {
        let q = choose|q: Path| #[trigger]
            before.contains_key(q) && !chosen.contains(q) && before[q] == e;
        assert(keys.to_set().contains(q));
        assert(gone.contains(q));
        assert(gone[gone.index_of(q)] == q);
    }
}

/// A bulk that arrives is cached under its path and no longer on its way; one that fails is noted,
/// and nothing is cached. All other bulks stay as they are.
pub proof fn lemma_bulks_arrive_or_fail<O, D>(
    state: &mut LodState<O, D>,
    path: String,
    answer: Option<BulkMetadata<O>>,
    p: Path,
)
    requires
        call_ensures(LodState::<O, D>::finish_bulk, (state, path, answer), ()),
    ensures
        ({
            let before = *old(state);
            let after = *final(state);
            &&& after.loading_bulks@.contains(p) <==> before.loading_bulks@.contains(p) && p
                != path@
            &&& answer matches Some(bulk) ==> after.bulks@.contains_key(path@)
                && after.bulks@[path@] == bulk
            &&& answer is None || p != path@ ==> (after.bulks@.contains_key(p)
                <==> before.bulks@.contains_key(p)) && (before.bulks@.contains_key(p)
                ==> after.bulks@[p] == before.bulks@[p])
            &&& after.failed_bulks@.contains(p) <==> before.failed_bulks@.contains(p) || (answer
                is None && p == path@)
            &&& after.loaded_nodes == before.loaded_nodes
            &&& after.loading_nodes == before.loading_nodes
            &&& after.node_data == before.node_data
            &&& after.node_entities == before.node_entities
            &&& after.node_obbs == before.node_obbs
        }),
{
}

/// A node that arrives is loaded under its path, with its data, and no longer on its way; it is
/// spawned with the volume that its bulk gave, if that is known. One that fails is just no longer
/// on its way.
pub proof fn lemma_nodes_arrive_or_fail<O: Copy, D>(
    state: &mut LodState<O, D>,
    path: String,
    node_path: &str,
    answer: Option<(D, O)>,
    spawn: Option<O>,
    p: Path,
)
    requires
        call_ensures(LodState::<O, D>::finish_node, (state, path, node_path, answer), spawn),
    ensures
        ({
            let before = *old(state);
            let after = *final(state);
            let arrived = answer is Some;
            &&& after.loading_nodes@.contains(p) <==> before.loading_nodes@.contains(p) && p
                != path@
            &&& after.loaded_nodes@.contains(p) <==> before.loaded_nodes@.contains(p) || (arrived
                && p == path@)
            &&& after.node_data@.contains_key(p) <==> before.node_data@.contains_key(p) || (arrived
                && p == path@)
            &&& answer matches Some(node) ==> after.node_data@[path@] == node.0
            &&& before.node_data@.contains_key(p) && (p != path@ || !arrived) ==> after.node_data@[p]
                == before.node_data@[p]
            &&& spawn is Some <==> arrived
            &&& answer matches Some(node) ==> {
                &&& before.node_obbs@.contains_key(node_path@) ==> spawn
                    == Some(before.node_obbs@[node_path@])
                &&& !before.node_obbs@.contains_key(node_path@) ==> spawn == Some(node.1)
            }
            &&& after.bulks == before.bulks
            &&& after.node_obbs == before.node_obbs
        }),
{
}

/// An entity is noted behind those that its node has already; other nodes keep theirs.
pub proof fn lemma_entities_are_noted<O, D>(
    state: &mut LodState<O, D>,
    path: &str,
    entity: u64,
    p: Path,
)
    requires
        call_ensures(LodState::<O, D>::record_entity, (state, path, entity), ()),
    ensures
        ({
            let before = old(state).node_entities@;
            let after = final(state).node_entities@;
            &&& after.contains_key(path@)
            &&& before.contains_key(path@) ==> after[path@]@ == before[path@]@.push(entity)
            &&& !before.contains_key(path@) ==> after[path@]@ == seq![entity]
            &&& p != path@ ==> (after.contains_key(p) <==> before.contains_key(p))
            &&& p != path@ && before.contains_key(p) ==> after[p]@ == before[p]@
        }),
{
    let before = *old(state);
    let after = *final(state);
    assert(after.node_entities@.dom().contains(path@));
    assert(after.entities_at(path@) == before.entities_at(path@).push(entity));
    assert(Seq::<u64>::empty().push(entity) =~= seq![entity]);
    if p != path@ {
        assert(after.entities_at(p) == before.entities_at(p));
        assert(after.node_entities@.dom().contains(p) <==> before.node_entities@.dom().contains(p));
    }
}

/// A snapshot draws every node that a walk met and whose volume is known, and no other; and it says
/// of each how far its loading has come and which walks met it.
pub proof fn lemma_snapshots_draw_what_was_met<O: Copy, D>(
    state: LodState<O, D>,
    render: BfsResult<O>,
    physics: PhysicsBfsResult<O>,
    slots: usize,
    shot: &mut LodSnapshot<O>,
    p: Path,
)
    requires
        call_ensures(populate_snapshot::<O, D>, (&state, &render, &physics, slots, shot), ()),
        render.potential_nodes.listed(),
        physics.potential_nodes.listed(),
    ensures
        ({
            let nodes = final(shot).nodes@;
            let seen = render.potential_nodes@.contains(p);
            let felt = physics.potential_nodes@.contains(p);
            &&& (exists|i: int| 0 <= i < nodes.len() && (#[trigger] nodes[i]).path@ == p) <==> (seen
                || felt) && state.node_obbs@.contains_key(p)
            &&& forall|i: int|
                0 <= i < nodes.len() && (#[trigger] nodes[i]).path@ == p ==> {
                    &&& nodes[i].depth == p.len()
                    &&& nodes[i].obb == state.node_obbs@[p]
                    &&& nodes[i].sources.render == seen
                    &&& nodes[i].sources.physics == felt
                    &&& nodes[i].state is Loaded <==> state.node_data@.contains_key(p)
                    &&& nodes[i].state is Loading <==> !state.node_data@.contains_key(p)
                        && state.loading_nodes@.contains(p)
                }
            &&& final(shot).physics_collider_paths@ == physics.collider_paths@
        }),
{
    let nodes = final(shot).nodes@;
    let paths = drawn_paths(nodes);
    let known = state.node_obbs@.dom();
    let first = crate::path_map::select(render.potential_nodes.keys(), known);
    let second = crate::path_map::select(
        physics.potential_nodes.keys(),
        known.difference(render.potential_nodes@),
    );
    lemma_select_members(render.potential_nodes.keys(), known);
    lemma_select_members(
        physics.potential_nodes.keys(),
        known.difference(render.potential_nodes@),
    );
    assert(render.potential_nodes.keys().to_set().contains(p) <==> render.potential_nodes@.contains(
        p,
    ));
    assert(physics.potential_nodes.keys().to_set().contains(p)
        <==> physics.potential_nodes@.contains(p));
    assert(paths == first + second);
    if first.contains(p) {
        let i = first.index_of(p);
        assert(paths[i] == p);
        assert(nodes[i].path@ == p);
    }
    if second.contains(p) {
        let i = first.len() + second.index_of(p);
        assert(paths[i] == p);
        assert(nodes[i].path@ == p);
    }
    if exists|i: int| 0 <= i < nodes.len() && (#[trigger] nodes[i]).path@ == p {
        let i = choose|i: int| 0 <= i < nodes.len() && (#[trigger] nodes[i]).path@ == p;
        assert(paths[i] == p);
        lemma_in_either(first, second, p);
    }
}

/// A snapshot counts depth by depth the nodes that a walk met and that are loaded, those on their
/// way, and the chosen collider hosts.
pub proof fn lemma_snapshots_count_by_depth<O: Copy, D>(
    state: LodState<O, D>,
    render: BfsResult<O>,
    physics: PhysicsBfsResult<O>,
    slots: usize,
    shot: &mut LodSnapshot<O>,
    d: int,
)
    requires
        call_ensures(populate_snapshot::<O, D>, (&state, &render, &physics, slots, shot), ()),
        0 <= d < slots,
    ensures
        ({
            let c = final(shot).counters;
            let r = render.potential_nodes@;
            let f = physics.potential_nodes@;
            let loaded = state.node_data@.dom();
            let loading = state.loading_nodes@.difference(loaded);
            &&& c.render_loaded_by_depth@[d] == r.intersect(loaded).filter(
                |p: Path| p.len() == d,
            ).len()
            &&& c.render_loading_by_depth@[d] == r.intersect(loading).filter(
                |p: Path| p.len() == d,
            ).len()
            &&& c.physics_loaded_by_depth@[d] == f.intersect(loaded).filter(
                |p: Path| p.len() == d,
            ).len()
            &&& c.physics_loading_by_depth@[d] == f.intersect(loading).filter(
                |p: Path| p.len() == d,
            ).len()
            &&& c.physics_colliders_by_depth@[d] == physics.collider_paths@.filter(
                |p: Path| p.len() == d,
            ).len()
        }),
{
    let r = render.potential_nodes@;
    let f = physics.potential_nodes@;
    let loaded = state.node_data@.dom();
    let loading = state.loading_nodes@.difference(loaded);
    let deep = |p: Path| p.len() == d;
    assert(at_depth(state.in_state(r, SnapshotNodeState::Loaded), d) =~= r.intersect(loaded).filter(
        deep,
    ));
    assert(at_depth(state.in_state(r, SnapshotNodeState::Loading), d) =~= r.intersect(
        loading,
    ).filter(deep));
    assert(at_depth(state.in_state(f, SnapshotNodeState::Loaded), d) =~= f.intersect(loaded).filter(
        deep,
    ));
    assert(at_depth(state.in_state(f, SnapshotNodeState::Loading), d) =~= f.intersect(
        loading,
    ).filter(deep));
    assert(at_depth(physics.collider_paths@, d) =~= physics.collider_paths@.filter(deep));
}

/// A snapshot counts what is loaded, on its way, cached and failed, in all.
pub proof fn lemma_snapshots_count_in_all<O: Copy, D>(
    state: LodState<O, D>,
    render: BfsResult<O>,
    physics: PhysicsBfsResult<O>,
    slots: usize,
    shot: &mut LodSnapshot<O>,
)
    requires
        call_ensures(populate_snapshot::<O, D>, (&state, &render, &physics, slots, shot), ()),
    ensures
        final(shot).counters.render_loaded == state.loaded_nodes@.len(),
        final(shot).counters.render_loading == state.loading_nodes@.len(),
        final(shot).counters.physics_colliders == state.physics_colliders@.dom().len(),
        final(shot).counters.bulks_cached == state.bulks@.dom().len(),
        final(shot).counters.bulks_loading == state.loading_bulks@.len(),
        final(shot).counters.bulks_failed == state.failed_bulks@.len(),
{
}

} // verus!
