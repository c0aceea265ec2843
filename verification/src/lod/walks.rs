//! What the two walks are for: which nodes they meet, keep and load, and where the colliders stand.
//!
//! Each law speaks of what a walk hands back, and of the bulks, the cached data and the camera's
//! verdicts that it was given.

use vstd::prelude::*;
use crate::path_map::Path;
use super::laws::{lemma_anchor_is_deepest, lemma_anchor_sound, lemma_ground_is_covered};
use super::listing::{above, parts_at};
use super::model::{lemma_slot_of, FrameView, NodeMetadata, NodeVerdict, Octree};
use super::physics::{lemma_touched_prefix, physics_bfs_traversal, PhysicsBfsResult};
use super::render::{bfs_traversal, node_paths, pair_paths, BfsResult};
use super::state::{LodState, Passage};

verus! {

/// The node under a path is the last one under that path in the bulk of its four levels, and the
/// camera's verdict on it stands at the same position of the verdicts on that bulk.
pub proof fn lemma_nodes_are_looked_up<O>(tree: Octree<O>, b: Path, i: int, p: Path)
    requires
        tree.bulks.contains_key(b),
        b.len() % 4 == 0,
        b.len() < p.len() <= b.len() + 4,
        p.take(b.len() as int) == b,
        '0' <= p.last() <= '7',
        b.len() == 0 || p.len() > b.len() + 1 || (tree.bulks.contains_key(b.take(b.len() - 4))
            && tree.bulks[b.take(b.len() - 4)].child_bulk_paths@.contains_key(
            b.skip(b.len() - 4),
        )),
        0 <= i < tree.bulks[b].nodes@.len(),
        tree.bulks[b].nodes@[i].path@ == p,
        forall|j: int|
            i < j < tree.bulks[b].nodes@.len() ==> (#[trigger] tree.bulks[b].nodes@[j]).path@ != p,
    ensures
        tree.slot(p) == Some(i),
        tree.node(p) == tree.bulks[b].nodes@[i],
        tree.verdicts.contains_key(b) && i < tree.verdicts[b]@.len() ==> tree.verdict(p)
            == tree.verdicts[b]@[i],
        !(tree.verdicts.contains_key(b) && i < tree.verdicts[b]@.len()) ==> tree.verdict(
            p,
        ).physics_depth is None && !tree.verdict(p).in_frustum && !tree.verdict(p).nearby
            && !tree.verdict(p).refine,
{
    let nodes = tree.bulks[b].nodes@;
    let parent = p.drop_last();
    assert(parent.take(b.len() as int) =~= p.take(b.len() as int));
    if parent.len() == b.len() {
        assert(parent =~= b);
    }
    lemma_last_slot(nodes, p, i);
}

proof fn lemma_last_slot<O>(nodes: Seq<super::model::NodeMetadata<O>>, p: Path, i: int)
    requires
        0 <= i < nodes.len(),
        nodes[i].path@ == p,
        forall|j: int| i < j < nodes.len() ==> (#[trigger] nodes[j]).path@ != p,
    ensures
        super::model::slot_of(nodes, p) == Some(i),
    decreases nodes.len(),
{
    if i < nodes.len() - 1 {
        assert(nodes[nodes.len() - 1].path@ != p);
        lemma_last_slot(nodes.drop_last(), p, i);
    }
}

/// A path that no bulk lists has no node: whatever has a node is listed, under its own path, in
/// the cached bulk of its four levels.
pub proof fn lemma_nodes_are_listed<O>(tree: Octree<O>, p: Path)
    requires
        tree.slot(p) is Some,
    ensures
        p.len() > 0,
        '0' <= p.last() <= '7',
        tree.bulks.contains_key(p.take((p.len() - 1) - (p.len() - 1) % 4)),
        ({
            let nodes = tree.bulks[p.take((p.len() - 1) - (p.len() - 1) % 4)].nodes@;
            exists|i: int| 0 <= i < nodes.len() && (#[trigger] nodes[i]).path@ == p
        }),
        tree.node(p).path@ == p,
{
    let k = (p.len() - 1) - (p.len() - 1) % 4;
    assert(p.drop_last().take(k) =~= p.take(k));
    let nodes = tree.bulks[p.take(k)].nodes@;
    lemma_slot_of(nodes, p);
    assert(nodes[tree.slot(p)->0].path@ == p);
}

/// The physics walk goes as deep as is wanted, and no deeper. It meets the child of a node if it
/// met the node, the node lies above the depth wanted there, and the child is known and in range;
/// and it meets nothing else.
pub proof fn lemma_physics_goes_as_deep_as_wanted<O: Copy, D>(
    state: LodState<O, D>,
    view: FrameView,
    result: &mut PhysicsBfsResult<O>,
    p: Path,
    c: char,
)
    requires
        call_ensures(physics_bfs_traversal::<O, D>, (&state, &view, result), ()),
    ensures
        ({
            let tree = state.octree(&view);
            let met = final(result).potential_nodes@;
            &&& !met.contains(Seq::empty())
            &&& met.contains(p.push(c)) <==> {
                &&& p.len() == 0 || (met.contains(p) && p.len() < tree.verdict(p).physics_depth->0)
                &&& tree.slot(p.push(c)) is Some
                &&& tree.verdict(p.push(c)).physics_depth is Some
            }
        }),
{
    assert(p.push(c).drop_last() =~= p);
    if p.len() == 0 {
        assert(p =~= Seq::empty());
    }
}

/// Nothing below the wanted depth is met, and nothing there carries a collider: every node above
/// one that is met or chosen is in range and lies above the depth wanted there.
pub proof fn lemma_nothing_below_the_wanted_depth<O: Copy, D>(
    state: LodState<O, D>,
    view: FrameView,
    result: &mut PhysicsBfsResult<O>,
    p: Path,
    k: int,
)
    requires
        call_ensures(physics_bfs_traversal::<O, D>, (&state, &view, result), ()),
        final(result).potential_nodes@.contains(p) || final(result).collider_paths@.contains(p),
        0 < k < p.len(),
    ensures
        ({
            let wanted = state.octree(&view).verdict(p.take(k)).physics_depth;
            wanted is Some && k < wanted->0
        }),
        final(result).potential_nodes@.contains(p.take(k)),
        final(result).potential_nodes@.contains(p),
{
    let tree = state.octree(&view);
    if final(result).collider_paths@.contains(p) {
        super::laws::lemma_hosts_have_data(tree, state.node_data@.dom(), p);
    }
    lemma_touched_prefix(tree, Seq::empty(), p, k);
    lemma_touched_prefix(tree, Seq::empty(), p, k - 1);
}

/// Whether data for the node at `p` is cached.
pub open spec fn cached<O, D>(state: LodState<O, D>, view: FrameView, p: Path) -> bool {
    state.octree(&view).node(p).has_data && state.node_data@.contains_key(p)
}

/// Whether the physics walk ends at `p`: it met the node there, and the wanted depth is reached or
/// it met no child of the node.
pub open spec fn ends_at<O>(tree: Octree<O>, met: Set<Path>, p: Path) -> bool {
    &&& met.contains(p)
    &&& p.len() >= tree.verdict(p).physics_depth->0 || forall|c: char|
        !met.contains(#[trigger] p.push(c))
}

proof fn lemma_ends_are_rests<O: Copy, D>(
    state: LodState<O, D>,
    view: FrameView,
    result: &mut PhysicsBfsResult<O>,
    p: Path,
)
    requires
        call_ensures(physics_bfs_traversal::<O, D>, (&state, &view, result), ()),
    ensures
        ends_at(state.octree(&view), final(result).potential_nodes@, p) <==> state.octree(
            &view,
        ).rests(p),
{
    let tree = state.octree(&view);
    let met = final(result).potential_nodes@;
    assert(met == tree.touched_set());
    assert forall|c: char| met.contains(#[trigger] p.push(c)) == tree.touched_from(
        Seq::empty(),
        p.push(c),
    ) by {}
    if tree.touched(p) && tree.has_touched_child(Seq::empty(), p) {
        let c = choose|c: char| tree.touched_from(Seq::empty(), #[trigger] p.push(c));
        assert(met.contains(p.push(c)));
    }
}

/// A collider stands only where it is needed, as fine as can be: its node has cached data, and
/// somewhere at or below it the walk ends with no finer data cached on the way.
pub proof fn lemma_colliders_are_as_fine_as_can_be<O: Copy, D>(
    state: LodState<O, D>,
    view: FrameView,
    result: &mut PhysicsBfsResult<O>,
    a: Path,
)
    requires
        call_ensures(physics_bfs_traversal::<O, D>, (&state, &view, result), ()),
        final(result).collider_paths@.contains(a),
    ensures
        cached(state, view, a),
        exists|p: Path| #[trigger]
            ends_at(state.octree(&view), final(result).potential_nodes@, p) && (p == a || above(
                a,
                p,
            )) && forall|k: int| a.len() < k <= p.len() ==> !cached(state, view, #[trigger] p.take(k)),
{
    let tree = state.octree(&view);
    let data = state.node_data@.dom();
    let met = final(result).potential_nodes@;
    super::laws::lemma_hosts_have_data(tree, data, a);
    let anchors = tree.anchors(data, tree.touched_set());
    assert(anchors.contains(a));
    let p = choose|p: Path| #[trigger]
        tree.touched_set().contains(p) && tree.rests(p) && tree.anchor(data, p) == Some(a);
    lemma_anchor_sound(tree, data, p);
    lemma_ends_are_rests(state, view, result, p);
    assert forall|k: int| a.len() < k <= p.len() implies !cached(state, view, #[trigger] p.take(k)) by {
        if cached(state, view, p.take(k)) {
            lemma_anchor_is_deepest(tree, data, p, k);
        }
    }
    assert(ends_at(tree, met, p));
}

/// Whoever stands where the walk ends does not fall through: if data for any node on the way down
/// is cached, exactly one collider covers the place.
pub proof fn lemma_one_collider_carries_every_place<O: Copy, D>(
    state: LodState<O, D>,
    view: FrameView,
    result: &mut PhysicsBfsResult<O>,
    p: Path,
    k: int,
)
    requires
        call_ensures(physics_bfs_traversal::<O, D>, (&state, &view, result), ()),
        ends_at(state.octree(&view), final(result).potential_nodes@, p),
        0 < k <= p.len(),
        cached(state, view, p.take(k)),
    ensures
        ({
            let hosts = final(result).collider_paths@;
            &&& exists|a: Path| #[trigger] hosts.contains(a) && (a == p || above(a, p))
            &&& forall|a: Path, b: Path|
                (#[trigger] hosts.contains(a) && #[trigger] hosts.contains(b)) ==> !above(a, b)
        }),
{
    let tree = state.octree(&view);
    let data = state.node_data@.dom();
    lemma_ends_are_rests(state, view, result, p);
    lemma_ground_is_covered(tree, data, p, k);
    let hosts = final(result).collider_paths@;
    assert forall|a: Path, b: Path| (#[trigger] hosts.contains(a) && #[trigger] hosts.contains(
        b,
    )) implies !above(a, b) by {
        super::laws::lemma_colliders_do_not_overlap(tree, data, a, b);
    }
}

proof fn lemma_listed_nodes<O>(nodes: Seq<super::model::NodeMetadata<O>>, p: Path)
    ensures
        node_paths(nodes).contains(p) <==> exists|i: int|
            0 <= i < nodes.len() && (#[trigger] nodes[i]).path@ == p,
{
    if node_paths(nodes).contains(p) {
        let i = node_paths(nodes).index_of(p);
        assert(nodes[i].path@ == p);
    }
    if exists|i: int| 0 <= i < nodes.len() && (#[trigger] nodes[i]).path@ == p {
        let i = choose|i: int| 0 <= i < nodes.len() && (#[trigger] nodes[i]).path@ == p;
        assert(node_paths(nodes)[i] == p);
    }
}

proof fn lemma_listed_pairs<T>(pairs: Seq<(String, T)>, p: Path)
    ensures
        pair_paths(pairs).contains(p) <==> exists|i: int|
            0 <= i < pairs.len() && (#[trigger] pairs[i]).0@ == p,
{
    if pair_paths(pairs).contains(p) {
        let i = pair_paths(pairs).index_of(p);
        assert(pairs[i].0@ == p);
    }
    if exists|i: int| 0 <= i < pairs.len() && (#[trigger] pairs[i]).0@ == p {
        let i = choose|i: int| 0 <= i < pairs.len() && (#[trigger] pairs[i]).0@ == p;
        assert(pair_paths(pairs)[i] == p);
    }
}

/// The physics walk asks for the data of every node that it met, if the node has data and is
/// neither loaded nor on its way, and for nothing else; it knows the volume of every node that it
/// met.
pub proof fn lemma_physics_asks_for_what_it_met<O: Copy, D>(
    state: LodState<O, D>,
    view: FrameView,
    result: &mut PhysicsBfsResult<O>,
    p: Path,
)
    requires
        call_ensures(physics_bfs_traversal::<O, D>, (&state, &view, result), ()),
    ensures
        ({
            let tree = state.octree(&view);
            let met = final(result).potential_nodes@;
            let asked = final(result).nodes_to_load@;
            let volumes = final(result).discovered_obbs@;
            &&& (exists|i: int| 0 <= i < asked.len() && (#[trigger] asked[i]).path@ == p) <==> {
                &&& met.contains(p)
                &&& tree.node(p).has_data
                &&& !state.loaded_nodes@.contains(p)
                &&& !state.loading_nodes@.contains(p)
            }
            &&& forall|i: int|
                0 <= i < asked.len() && (#[trigger] asked[i]).path@ == p ==> asked[i] == tree.node(
                    p,
                )
            &&& (exists|i: int| 0 <= i < volumes.len() && (#[trigger] volumes[i]).0@ == p)
                <==> met.contains(p)
            &&& forall|i: int|
                0 <= i < volumes.len() && (#[trigger] volumes[i]).0@ == p ==> volumes[i].1
                    == tree.node(p).obb
        }),
{
    lemma_listed_nodes(final(result).nodes_to_load@, p);
    lemma_listed_pairs(final(result).discovered_obbs@, p);
}

/// The physics walk needs a bulk if its parent bulk names it and the walk goes below the node
/// there; beside those it needs the root bulk. It asks for those that are neither cached, nor on
/// their way, nor known to fail, with the epoch that the parent bulk gives.
pub proof fn lemma_physics_needs_bulks_on_its_way<O: Copy, D>(
    state: LodState<O, D>,
    view: FrameView,
    result: &mut PhysicsBfsResult<O>,
    p: Path,
)
    requires
        call_ensures(physics_bfs_traversal::<O, D>, (&state, &view, result), ()),
        p.len() > 0,
    ensures
        ({
            let tree = state.octree(&view);
            let met = final(result).potential_nodes@;
            let asked = final(result).bulks_to_load@;
            let needed = final(result).potential_bulks@;
            let parent = p.take(p.len() - 4);
            let last = p.skip(p.len() - 4);
            &&& needed.contains(p) <==> {
                &&& p.len() % 4 == 0
                &&& met.contains(p)
                &&& p.len() < tree.verdict(p).physics_depth->0
                &&& state.bulks@.contains_key(parent)
                &&& state.bulks@[parent].child_bulk_paths@.contains_key(last)
            }
            &&& (exists|i: int| 0 <= i < asked.len() && (#[trigger] asked[i]).0@ == p) <==> {
                &&& needed.contains(p)
                &&& !state.bulks@.contains_key(p)
                &&& !state.loading_bulks@.contains(p)
                &&& !state.failed_bulks@.contains(p)
            }
            &&& forall|i: int|
                0 <= i < asked.len() && (#[trigger] asked[i]).0@ == p ==> asked[i].1
                    == state.bulks@[parent].child_bulk_paths@[last]
            &&& needed.contains(Seq::empty()) <==> state.bulks@.contains_key(Seq::empty())
        }),
{
    let tree = state.octree(&view);
    let root = Seq::<char>::empty();
    lemma_listed_pairs(final(result).bulks_to_load@, p);
    assert(root.take(0) =~= root);
    assert(super::model::bulk_key(root) =~= root);
    assert(tree.descends_from(root, root));
    assert(!tree.declared(root));
}

/// The lists of the physics walk name a node before what lies below it, lower octants before
/// higher ones, and nothing twice.
pub proof fn lemma_physics_lists_branch_by_branch<O: Copy, D>(
    state: LodState<O, D>,
    view: FrameView,
    result: &mut PhysicsBfsResult<O>,
    i: int,
    j: int,
    k: int,
)
    requires
        call_ensures(physics_bfs_traversal::<O, D>, (&state, &view, result), ()),
        0 <= i < j < final(result).nodes_to_load@.len(),
    ensures
        ({
            let a = final(result).nodes_to_load@[i].path@;
            let b = final(result).nodes_to_load@[j].path@;
            &&& a != b
            &&& !above(b, a)
            &&& 0 <= k < a.len() && k < b.len() && a.take(k) == b.take(k) && a[k] != b[k] ==> a[k]
                < b[k]
        }),
{
    let paths = node_paths(final(result).nodes_to_load@);
    lemma_branch_order(paths[i], paths[j], k);
}

proof fn lemma_branch_order(a: Path, b: Path, k: int)
    requires
        super::listing::tree_before(a, b),
    ensures
        a != b,
        !above(b, a),
        0 <= k < a.len() && k < b.len() && a.take(k) == b.take(k) && a[k] != b[k] ==> a[k] < b[k],
{
    if above(a, b) {
        if 0 <= k < a.len() {
            assert(b.take(a.len() as int)[k] == b[k]);
        }
    } else {
        let m = choose|m: int| parts_at(a, b, m);
        if above(b, a) {
            assert(a.take(b.len() as int)[m] == a[m]);
        }
        if 0 <= k < a.len() && k < b.len() && a.take(k) == b.take(k) && a[k] != b[k] {
            if m < k {
                assert(a.take(k)[m] == a[m] && b.take(k)[m] == b[m]);
            } else if k < m {
                assert(a.take(m)[k] == a[k] && b.take(m)[k] == b[k]);
            }
        }
    }
}

/// Whether the camera keeps the node at `p`: it is in view, or the camera is low and the node near.
pub open spec fn camera_keeps<O, D>(state: LodState<O, D>, view: FrameView, p: Path) -> bool {
    let verdict = state.octree(&view).verdict(p);
    verdict.in_frustum || (view.low_altitude && verdict.nearby)
}

/// The render walk refines what is kept and too coarse, and nothing else. It meets the child of a
/// node if it met the node and the node is too coarse, and if the child is known and the camera
/// keeps it. A node that it met may show if it is too coarse for the walk to stop there and has
/// data.
pub proof fn lemma_render_refines_what_is_too_coarse<O: Copy, D>(
    state: LodState<O, D>,
    view: FrameView,
    result: &mut BfsResult<O>,
    p: Path,
    c: char,
)
    requires
        call_ensures(bfs_traversal::<O, D>, (&state, &view, result), ()),
    ensures
        ({
            let tree = state.octree(&view);
            let met = pair_paths(final(result).discovered_obbs@);
            &&& met.contains(p.push(c)) <==> {
                &&& p.len() == 0 || (met.contains(p) && tree.verdict(p).refine)
                &&& tree.slot(p.push(c)) is Some
                &&& camera_keeps(state, view, p.push(c))
            }
            &&& !met.contains(Seq::empty())
            &&& final(result).potential_nodes@.contains(p) <==> {
                &&& met.contains(p)
                &&& tree.verdict(p).refine
                &&& tree.node(p).has_data
            }
        }),
{
    assert(p.push(c).drop_last() =~= p);
    if p.len() == 0 {
        assert(p =~= Seq::empty());
    }
}

/// The render walk asks for the data of every node that may show and is neither loaded nor on its
/// way, and for nothing else.
pub proof fn lemma_render_asks_for_what_may_show<O: Copy, D>(
    state: LodState<O, D>,
    view: FrameView,
    result: &mut BfsResult<O>,
    p: Path,
)
    requires
        call_ensures(bfs_traversal::<O, D>, (&state, &view, result), ()),
    ensures
        ({
            let tree = state.octree(&view);
            let asked = final(result).nodes_to_load@;
            let volumes = final(result).discovered_obbs@;
            &&& (exists|i: int| 0 <= i < asked.len() && (#[trigger] asked[i]).path@ == p) <==> {
                &&& final(result).potential_nodes@.contains(p)
                &&& !state.loaded_nodes@.contains(p)
                &&& !state.loading_nodes@.contains(p)
            }
            &&& forall|i: int|
                0 <= i < asked.len() && (#[trigger] asked[i]).path@ == p ==> asked[i] == tree.node(
                    p,
                )
            &&& forall|i: int|
                0 <= i < volumes.len() && (#[trigger] volumes[i]).0@ == p ==> volumes[i].1
                    == tree.node(p).obb
        }),
{
    lemma_listed_nodes(final(result).nodes_to_load@, p);
    lemma_listed_pairs(final(result).discovered_obbs@, p);
}

/// The render walk needs a bulk if its parent bulk names it and the walk met the node there and
/// finds it too coarse; beside those it needs the root bulk. It asks for those that are neither
/// cached, nor on their way, nor known to fail, with the epoch that the parent bulk gives.
pub proof fn lemma_render_needs_bulks_on_its_way<O: Copy, D>(
    state: LodState<O, D>,
    view: FrameView,
    result: &mut BfsResult<O>,
    p: Path,
)
    requires
        call_ensures(bfs_traversal::<O, D>, (&state, &view, result), ()),
        p.len() > 0,
    ensures
        ({
            let tree = state.octree(&view);
            let met = pair_paths(final(result).discovered_obbs@);
            let asked = final(result).bulks_to_load@;
            let needed = final(result).potential_bulks@;
            let parent = p.take(p.len() - 4);
            let last = p.skip(p.len() - 4);
            &&& needed.contains(p) <==> {
                &&& p.len() % 4 == 0
                &&& met.contains(p)
                &&& tree.verdict(p).refine
                &&& state.bulks@.contains_key(parent)
                &&& state.bulks@[parent].child_bulk_paths@.contains_key(last)
            }
            &&& (exists|i: int| 0 <= i < asked.len() && (#[trigger] asked[i]).0@ == p) <==> {
                &&& needed.contains(p)
                &&& !state.bulks@.contains_key(p)
                &&& !state.loading_bulks@.contains(p)
                &&& !state.failed_bulks@.contains(p)
            }
            &&& forall|i: int|
                0 <= i < asked.len() && (#[trigger] asked[i]).0@ == p ==> asked[i].1
                    == state.bulks@[parent].child_bulk_paths@[last]
            &&& needed.contains(Seq::empty()) <==> state.bulks@.contains_key(Seq::empty())
        }),
{
    lemma_listed_pairs(final(result).bulks_to_load@, p);
    assert(!state.octree(&view).declared(Seq::empty()));
}

/// The lists of the render walk name coarse nodes before fine ones, on one level lower octants
/// before higher ones, and nothing twice.
pub proof fn lemma_render_lists_level_by_level<O: Copy, D>(
    state: LodState<O, D>,
    view: FrameView,
    result: &mut BfsResult<O>,
    i: int,
    j: int,
    k: int,
)
    requires
        call_ensures(bfs_traversal::<O, D>, (&state, &view, result), ()),
        0 <= i < j < final(result).nodes_to_load@.len(),
    ensures
        ({
            let a = final(result).nodes_to_load@[i].path@;
            let b = final(result).nodes_to_load@[j].path@;
            &&& a != b
            &&& a.len() <= b.len()
            &&& a.len() == b.len() && 0 <= k < a.len() && a.take(k) == b.take(k) && a[k] != b[k]
                ==> a[k] < b[k]
        }),
{
    let paths = node_paths(final(result).nodes_to_load@);
    let a = paths[i];
    let b = paths[j];
    assert(super::listing::level_before(a, b));
    if a.len() == b.len() {
        let m = choose|m: int| parts_at(a, b, m);
        if 0 <= k < a.len() && a.take(k) == b.take(k) && a[k] != b[k] {
            if m < k {
                assert(a.take(k)[m] == a[m] && b.take(k)[m] == b[m]);
            } else if k < m {
                assert(a.take(m)[k] == a[k] && b.take(m)[k] == b[k]);
            }
        }
    }
}

/// The way below a path is open if the bulk that lists the children there is cached, and, where a new
/// bulk begins, the bulk above names it; a bulk that is named and not cached is missing.
pub proof fn lemma_ways_lead_through_bulks<O, D>(
    state: LodState<O, D>,
    view: FrameView,
    path: &str,
    found: Passage,
)
    requires
        call_ensures(LodState::<O, D>::find_passage, (&state, &view, path), found),
    ensures
        ({
            let p = path@;
            let n = p.len() as int;
            let begins = n > 0 && n % 4 == 0;
            let parent = p.take(n - 4);
            let named = begins && state.bulks@.contains_key(parent)
                && state.bulks@[parent].child_bulk_paths@.contains_key(p.skip(n - 4));
            &&& begins ==> (found is Open <==> named && state.bulks@.contains_key(p))
            &&& begins ==> (found is Missing <==> named && !state.bulks@.contains_key(p))
            &&& found matches Passage::Missing(epoch) ==> epoch
                == state.bulks@[parent].child_bulk_paths@[p.skip(n - 4)]
            &&& !begins ==> (found is Open <==> state.bulks@.contains_key(p.take(n - n % 4)))
            &&& !begins && !state.bulks@.contains_key(p.take(n - n % 4)) ==> found is Shut
        }),
{
    let p = path@;
    let n = p.len() as int;
    if n % 4 == 0 {
        assert(p.take(n) =~= p);
    }
}

/// A child is found in the octant asked for, under the path of its parent and the digit of the octant,
/// if its bulk lists it there.
pub proof fn lemma_children_are_found_by_octant<O, D>(
    state: LodState<O, D>,
    view: FrameView,
    path: &str,
    octant: u8,
    found: Option<(String, &NodeMetadata<O>, NodeVerdict)>,
)
    requires
        state.wf(),
        octant < 8,
        state.octree(&view).entered(path@),
        call_ensures(LodState::<O, D>::find_child, (&state, &view, path, octant), found),
    ensures
        found matches Some(child) ==> {
            &&& child.0@.len() == path@.len() + 1
            &&& child.0@.take(path@.len() as int) == path@
            &&& child.0@.last() as int == '0' as int + octant
            &&& child.1.path@ == child.0@
            &&& child.2 == state.octree(&view).verdict(child.0@)
        },
        found is Some <==> state.octree(&view).slot(
            path@.push(('0' as int + octant) as char),
        ) is Some,
{
    if found is Some {
        let child = found->0;
        let q = child.0@;
        assert(q.take(path@.len() as int) =~= path@);
    }
}

} // verus!
