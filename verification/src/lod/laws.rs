//! What holds of the streaming as a whole.

use vstd::prelude::*;
use crate::path_map::{lemma_select_members, Path};
use super::listing::above;
use super::model::{FrameView, Octree};
use super::physics::{lemma_touched_prefix, outermost};
use super::render::{node_paths, pair_paths};
use super::requests::{
    cutoff_of,
    first_seen,
    lemma_first_seen,
    lemma_in_either,
    LodActions,
    LodScratch,
    MAX_BULK_LOADS,
    MAX_NODE_LOADS,
};
use super::state::LodState;

verus! {

pub proof fn lemma_anchor_is_deepest<O>(tree: Octree<O>, data: Set<Path>, p: Path, k: int)
    requires
        0 < k <= p.len(),
        tree.node(p.take(k)).has_data,
        data.contains(p.take(k)),
    ensures
        ({
            let a = tree.anchor(data, p);
            &&& a is Some
            &&& a->0.len() >= k
            &&& a->0 == p || above(a->0, p)
        }),
    decreases p.len(),
{
    if p.len() == k {
        assert(p.take(k) =~= p);
    } else if !(tree.node(p).has_data && data.contains(p)) {
        let q = p.drop_last();
        assert(q.take(k) =~= p.take(k));
        lemma_anchor_is_deepest(tree, data, q, k);
        let a = tree.anchor(data, q)->0;
        assert(p.take(a.len() as int) =~= q.take(a.len() as int));
        assert(q.take(q.len() as int) =~= q);
    }
}

/// Whatever lies among `paths` is covered by one of them that lies below no other.
proof fn lemma_outermost_covers(paths: Set<Path>, a: Path)
    requires
        paths.contains(a),
    ensures
        exists|b: Path| #[trigger] outermost(paths).contains(b) && (b == a || above(b, a)),
    decreases a.len(),
{
    if !outermost(paths).contains(a) {
        let c = choose|c: Path| #[trigger] paths.contains(c) && above(c, a);
        lemma_outermost_covers(paths, c);
        let b = choose|b: Path| #[trigger]
            outermost(paths).contains(b) && (b == c || above(b, c));
        assert(a.take(b.len() as int) =~= c.take(b.len() as int));
        assert(c.take(c.len() as int) =~= c);
    }
}

/// Solid ground: wherever the physics walk ends, if any node on the way down has cached data,
/// some collider covers the place.
pub proof fn lemma_ground_is_covered<O>(tree: Octree<O>, data: Set<Path>, p: Path, k: int)
    requires
        tree.rests(p),
        0 < k <= p.len(),
        tree.node(p.take(k)).has_data,
        data.contains(p.take(k)),
    ensures
        exists|a: Path| #[trigger] tree.hosts(data).contains(a) && (a == p || above(a, p)),
{
    let anchors = tree.anchors(data, tree.touched_set());
    lemma_anchor_is_deepest(tree, data, p, k);
    let c = tree.anchor(data, p)->0;
    assert(tree.touched_set().contains(p));
    assert(anchors.contains(c));
    lemma_outermost_covers(anchors, c);
    let a = choose|a: Path| #[trigger]
        outermost(anchors).contains(a) && (a == c || above(a, c));
    assert(p.take(a.len() as int) =~= c.take(a.len() as int)) by {
        if c != p {
            assert(p.take(c.len() as int).take(a.len() as int) =~= p.take(a.len() as int));
        }
    }
    assert(c.take(c.len() as int) =~= c);
    assert(tree.hosts(data).contains(a));
}

/// No more than one collider covers a place.
pub proof fn lemma_one_collider_per_region<O>(
    tree: Octree<O>,
    data: Set<Path>,
    p: Path,
    a: Path,
    b: Path,
)
    requires
        tree.hosts(data).contains(a),
        tree.hosts(data).contains(b),
        a == p || above(a, p),
        b == p || above(b, p),
    ensures
        a == b,
{
    assert(p.take(p.len() as int) =~= p);
    if a.len() < b.len() {
        assert(b.take(a.len() as int) =~= p.take(a.len() as int));
        lemma_colliders_do_not_overlap(tree, data, a, b);
    } else if b.len() < a.len() {
        assert(a.take(b.len() as int) =~= p.take(b.len() as int));
        lemma_colliders_do_not_overlap(tree, data, b, a);
    }
}

pub proof fn lemma_anchor_sound<O>(tree: Octree<O>, data: Set<Path>, p: Path)
    requires
        tree.touched(p),
        tree.anchor(data, p) is Some,
    ensures
        ({
            let a = tree.anchor(data, p)->0;
            &&& tree.touched(a)
            &&& tree.node(a).has_data
            &&& data.contains(a)
            &&& a == p || above(a, p)
        }),
    decreases p.len(),
{
    if !(tree.node(p).has_data && data.contains(p)) {
        let q = p.drop_last();
        assert(q.len() > 0);
        lemma_touched_prefix(tree, Seq::empty(), p, p.len() - 2);
        assert(p.take(p.len() - 1) =~= q);
        lemma_anchor_sound(tree, data, q);
        let a = tree.anchor(data, q)->0;
        assert(p.take(a.len() as int) =~= q.take(a.len() as int));
        assert(q.take(q.len() as int) =~= q);
    }
}

/// Every collider host is a node in range whose data is cached.
pub proof fn lemma_hosts_have_data<O>(tree: Octree<O>, data: Set<Path>, a: Path)
    requires
        tree.hosts(data).contains(a),
    ensures
        tree.touched(a),
        tree.node(a).has_data,
        data.contains(a),
{
    let p = choose|p: Path| #[trigger]
        tree.touched_set().contains(p) && tree.rests(p) && tree.anchor(data, p) == Some(a);
    lemma_anchor_sound(tree, data, p);
}

/// Colliders do not overlap: none lies below another.
pub proof fn lemma_colliders_do_not_overlap<O>(tree: Octree<O>, data: Set<Path>, a: Path, b: Path)
    requires
        tree.hosts(data).contains(a),
        tree.hosts(data).contains(b),
    ensures
        !above(a, b),
{
    assert(tree.anchors(data, tree.touched_set()).contains(a));
}

/// A node that a walk asks for, or asked for within the grace period, stays: it stays loaded, its
/// data stays cached and its entity stays.
pub proof fn lemma_recent_nodes_stay<O, D>(
    before: LodState<O, D>,
    noted: LodState<O, D>,
    after: LodState<O, D>,
    view: &FrameView,
    now: u64,
    grace: u64,
    found: LodScratch<O>,
    actions: LodActions,
    p: Path,
)
    requires
        before.notes(view, now, grace, &noted),
        noted.settles(before.octree(view), before.hosts(view), &found, &after, &actions),
        ({
            let tree = before.octree(view);
            ||| tree.visible_set().contains(p)
            ||| tree.touched_set().contains(p)
            ||| before.node_last_seen@.contains_key(p) && before.node_last_seen@[p] >= cutoff_of(
                now,
                grace,
            )
        }),
    ensures
        before.loaded_nodes@.contains(p) ==> after.loaded_nodes@.contains(p),
        before.node_data@.contains_key(p) ==> {
            &&& after.node_data@.contains_key(p)
            &&& after.node_data@[p] == before.node_data@[p]
        },
        before.node_entities@.contains_key(p) ==> {
            &&& after.node_entities@.contains_key(p)
            &&& after.node_entities@[p] == before.node_entities@[p]
        },
{
    let nodes = noted.retained_nodes(before.hosts(view));
    let keep = nodes.union(before.hosts(view));
    assert(nodes.contains(p));
    lemma_select_members(noted.loaded_nodes.keys(), nodes.complement());
    lemma_select_members(noted.node_data.keys(), keep.complement());
}

/// A node that no walk asks for, that was last asked for before the grace period, and that
/// carries no collider, is unloaded, and its data is dropped.
pub proof fn lemma_lapsed_nodes_go<O, D>(
    before: LodState<O, D>,
    noted: LodState<O, D>,
    after: LodState<O, D>,
    view: &FrameView,
    now: u64,
    grace: u64,
    found: LodScratch<O>,
    actions: LodActions,
    p: Path,
)
    requires
        before.node_data.listed(),
        before.notes(view, now, grace, &noted),
        noted.settles(before.octree(view), before.hosts(view), &found, &after, &actions),
        !before.octree(view).visible_set().contains(p),
        !before.octree(view).touched_set().contains(p),
        before.node_last_seen@.contains_key(p) ==> before.node_last_seen@[p] < cutoff_of(now, grace),
        !before.hosts(view).contains(p),
    ensures
        !after.loaded_nodes@.contains(p),
        !after.node_data@.contains_key(p),
{
    let nodes = noted.retained_nodes(before.hosts(view));
    let keep = nodes.union(before.hosts(view));
    lemma_select_members(noted.node_data.keys(), keep.complement());
    assert(!nodes.contains(p));
    if before.node_data@.contains_key(p) {
        assert(noted.node_data.keys().to_set().contains(p));
        assert(noted.stale_data(nodes, before.hosts(view)).contains(p));
    }
}

/// The root bulk, once cached, stays.
pub proof fn lemma_root_bulk_stays<O, D>(
    before: LodState<O, D>,
    after: LodState<O, D>,
    nodes: Set<Path>,
    bulks: Set<Path>,
    hosts: Set<Path>,
)
    requires
        before.unloads_to(nodes, bulks, hosts, &after),
        before.bulks@.contains_key(Seq::empty()),
    ensures
        after.bulks@.contains_key(Seq::empty()),
        after.bulks@[Seq::empty()] == before.bulks@[Seq::empty()],
{
    lemma_select_members(before.bulks.keys(), bulks.insert(Seq::empty()).complement());
}

/// Nothing is asked for twice: a requested node is neither loaded nor already on its way, and
/// no two requests ask for the same node.
pub proof fn lemma_no_node_is_loaded_twice<O, D>(
    before: LodState<O, D>,
    noted: LodState<O, D>,
    after: LodState<O, D>,
    view: &FrameView,
    now: u64,
    grace: u64,
    found: LodScratch<O>,
    actions: LodActions,
    i: int,
    j: int,
)
    requires
        before.render_finds(view, &found.render_result),
        before.physics_finds(view, &found.physics_result),
        before.notes(view, now, grace, &noted),
        noted.settles(before.octree(view), before.hosts(view), &found, &after, &actions),
        0 <= i < actions.node_requests@.len(),
        0 <= j < actions.node_requests@.len(),
    ensures
        before.node_absent(actions.node_requests@[i].path@),
        after.loading_nodes@.contains(actions.node_requests@[i].path@),
        i != j ==> actions.node_requests@[i].path@ != actions.node_requests@[j].path@,
{
    let a = node_paths(found.render_result.nodes_to_load@);
    let b = node_paths(found.physics_result.nodes_to_load@);
    let wished = first_seen(a + b);
    lemma_first_seen(a + b);
    assert(wished[i] == actions.node_requests@[i].path@);
    assert(wished[j] == actions.node_requests@[j].path@);
    assert(wished.contains(wished[i]));
    assert(wished.to_set().contains(wished[i]));
    assert((a + b).to_set().contains(wished[i]));
    lemma_in_either(a, b, wished[i]);
    let k = actions.node_requests@.len() as int;
    assert(wished.take(k)[i] == wished[i]);
    assert(wished.take(k).contains(wished[i]));
}

/// The same of bulks; and a bulk that failed is not asked for again.
pub proof fn lemma_no_bulk_is_loaded_twice<O, D>(
    before: LodState<O, D>,
    noted: LodState<O, D>,
    after: LodState<O, D>,
    view: &FrameView,
    now: u64,
    grace: u64,
    found: LodScratch<O>,
    actions: LodActions,
    i: int,
    j: int,
)
    requires
        before.render_finds(view, &found.render_result),
        before.physics_finds(view, &found.physics_result),
        before.notes(view, now, grace, &noted),
        noted.settles(before.octree(view), before.hosts(view), &found, &after, &actions),
        0 <= i < actions.bulk_requests@.len(),
        0 <= j < actions.bulk_requests@.len(),
    ensures
        before.bulk_absent(actions.bulk_requests@[i].path@),
        after.loading_bulks@.contains(actions.bulk_requests@[i].path@),
        i != j ==> actions.bulk_requests@[i].path@ != actions.bulk_requests@[j].path@,
{
    let a = pair_paths(found.render_result.bulks_to_load@);
    let b = pair_paths(found.physics_result.bulks_to_load@);
    let wished = first_seen(a + b);
    lemma_first_seen(a + b);
    assert(wished[i] == actions.bulk_requests@[i].path@);
    assert(wished[j] == actions.bulk_requests@[j].path@);
    assert(wished.contains(wished[i]));
    assert(wished.to_set().contains(wished[i]));
    assert((a + b).to_set().contains(wished[i]));
    lemma_in_either(a, b, wished[i]);
    let k = actions.bulk_requests@.len() as int;
    assert(wished.take(k)[i] == wished[i]);
    assert(wished.take(k).contains(wished[i]));
}

/// An update starts no load beyond the limits.
pub proof fn lemma_loads_stay_within_limits<O, D>(
    before: LodState<O, D>,
    noted: LodState<O, D>,
    after: LodState<O, D>,
    view: &FrameView,
    now: u64,
    grace: u64,
    found: LodScratch<O>,
    actions: LodActions,
)
    requires
        before.notes(view, now, grace, &noted),
        noted.settles(before.octree(view), before.hosts(view), &found, &after, &actions),
    ensures
        actions.node_requests@.len() > 0 ==> before.loading_nodes@.len()
            + actions.node_requests@.len() <= MAX_NODE_LOADS,
        actions.bulk_requests@.len() > 0 ==> before.loading_bulks@.len()
            + actions.bulk_requests@.len() <= MAX_BULK_LOADS,
{
}

} // verus!
