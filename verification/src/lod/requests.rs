//! The update of each frame: both walks, what they keep alive, and what to load next.

use vstd::prelude::*;
use crate::path_map::{lemma_take_next, Path, PathMap, PathSet};
use super::model::{FrameView, NodeMetadata, Octree};
use super::physics::{physics_bfs_traversal, PhysicsBfsResult};
use super::render::{bfs_traversal, node_paths, nodes_right, epochs_right, pair_paths, BfsResult};
use super::retention::{colliders_under, entities_under, unload_obsolete};
use super::snapshot::{populate_snapshot, LodSnapshot, LodSnapshotRequest};
use super::state::LodState;

verus! {

/// The most nodes that are loaded at a time.
pub const MAX_NODE_LOADS: usize = 20;

/// The most bulks that are loaded at a time.
pub const MAX_BULK_LOADS: usize = 10;

/// A node to fetch.
pub struct NodeRequest {
    pub path: String,
    pub epoch: u32,
    pub texture_format: u32,
    pub imagery_epoch: Option<u32>,
}

/// A bulk to fetch.
pub struct BulkRequest {
    pub path: String,
    pub epoch: u32,
}

/// The results of both walks, kept from frame to frame for their buffers.
#[verifier::reject_recursive_types(O)]
pub struct LodScratch<O> {
    pub render_result: BfsResult<O>,
    pub physics_result: PhysicsBfsResult<O>,
}

/// What an update wants done.
pub struct LodActions {
    /// Entities to despawn.
    pub despawn: Vec<u64>,
    /// Nodes to fetch.
    pub node_requests: Vec<NodeRequest>,
    /// Bulks to fetch.
    pub bulk_requests: Vec<BulkRequest>,
}

/// `paths` without those that stand earlier in it.
pub open spec fn first_seen(paths: Seq<Path>) -> Seq<Path>
    decreases paths.len(),
{
    if paths.len() == 0 {
        paths
    } else {
        let rest = first_seen(paths.drop_last());
        if rest.contains(paths.last()) {
            rest
        } else {
            rest.push(paths.last())
        }
    }
}

/// How many of `wanted` loads may start while `running` are under way and `limit` may be.
pub open spec fn room(wanted: nat, running: nat, limit: nat) -> nat {
    if running + wanted <= limit {
        wanted
    } else if running <= limit {
        (limit - running) as nat
    } else {
        0
    }
}

/// The time stamps once all of `seen` were asked for at `now` and those before `cutoff` lapsed.
pub open spec fn refreshed(
    stamps: Map<Path, u64>,
    seen: Set<Path>,
    now: u64,
    cutoff: u64,
) -> Map<Path, u64> {
    Map::new(
        |p: Path| seen.contains(p) || (stamps.contains_key(p) && stamps[p] >= cutoff),
        |p: Path|
            if seen.contains(p) {
                now
            } else {
                stamps[p]
            },
    )
}

/// The time before which a stamp has lapsed.
pub open spec fn cutoff_of(now: u64, grace: u64) -> u64 {
    if now >= grace {
        (now - grace) as u64
    } else {
        0
    }
}

/// The bounding volumes once those of the nodes in `met` are noted; a volume once noted stays.
pub open spec fn with_obbs<O>(
    obbs: Map<Path, O>,
    tree: Octree<O>,
    met: Set<Path>,
) -> Map<Path, O> {
    Map::new(
        |p: Path| obbs.contains_key(p) || met.contains(p),
        |p: Path|
            if obbs.contains_key(p) {
                obbs[p]
            } else {
                tree.node(p).obb
            },
    )
}

impl<O, D> LodState<O, D> {
    /// The nodes that carry colliders in the current view.
    pub open spec fn hosts(&self, view: &FrameView) -> Set<Path> {
        self.octree(view).hosts(self.node_data@.dom())
    }

    /// Whether `noted` is this state once the outcome of both walks is written down.
    pub open spec fn notes(&self, view: &FrameView, now: u64, grace: u64, noted: &Self) -> bool {
        let tree = self.octree(view);
        let cutoff = cutoff_of(now, grace);
        &&& noted.node_obbs@ == with_obbs(
            self.node_obbs@,
            tree,
            tree.discovered_set().union(tree.touched_set()),
        )
        &&& noted.node_last_seen@ == refreshed(
            self.node_last_seen@,
            tree.visible_set().union(tree.touched_set()),
            now,
            cutoff,
        )
        &&& noted.bulk_last_seen@ == refreshed(
            self.bulk_last_seen@,
            tree.render_bulks().union(tree.physics_bulks()),
            now,
            cutoff,
        )
        &&& noted.physics_target_paths@ == self.hosts(view)
        &&& noted.loading_nodes == self.loading_nodes
        &&& noted.loaded_nodes == self.loaded_nodes
        &&& noted.loading_bulks == self.loading_bulks
        &&& noted.failed_bulks == self.failed_bulks
        &&& noted.bulks == self.bulks
        &&& noted.bulk_node_indices == self.bulk_node_indices
        &&& noted.node_entities == self.node_entities
        &&& noted.node_data == self.node_data
        &&& noted.physics_colliders == self.physics_colliders
    }

    /// The nodes that an update keeps alive.
    pub open spec fn retained_nodes(&self, hosts: Set<Path>) -> Set<Path> {
        self.node_last_seen@.dom().union(hosts)
    }

    /// Whether `after` and `actions` follow from this state, in which the outcome of both walks
    /// is written down: what nothing holds is dropped, and what the walks ask for is requested
    /// as far as there is room, the render walk's wishes first.
    pub open spec fn settles(
        &self,
        tree: Octree<O>,
        hosts: Set<Path>,
        scratch: &LodScratch<O>,
        after: &Self,
        actions: &LodActions,
    ) -> bool {
        let nodes = self.retained_nodes(hosts);
        let bulks = self.bulk_last_seen@.dom();
        let wished_nodes = first_seen(
            node_paths(scratch.render_result.nodes_to_load@) + node_paths(
                scratch.physics_result.nodes_to_load@,
            ),
        );
        let wished_bulks = first_seen(
            pair_paths(scratch.render_result.bulks_to_load@) + pair_paths(
                scratch.physics_result.bulks_to_load@,
            ),
        );
        let node_room = room(
            wished_nodes.len(),
            self.loading_nodes@.len(),
            MAX_NODE_LOADS as nat,
        );
        let bulk_room = room(
            wished_bulks.len(),
            self.loading_bulks@.len(),
            MAX_BULK_LOADS as nat,
        );
        &&& self.unloads_to(nodes, bulks, hosts, after)
        &&& actions.despawn@ == entities_under(self.node_entities@, self.gone_nodes(nodes))
            + colliders_under(self.physics_colliders@, self.stale_data(nodes, hosts))
        &&& after.loading_nodes@ == self.loading_nodes@.union(
            wished_nodes.take(node_room as int).to_set(),
        )
        &&& after.loading_bulks@ == self.loading_bulks@.union(
            wished_bulks.take(bulk_room as int).to_set(),
        )
        &&& actions.node_requests@.len() == node_room
        &&& forall|i: int|
            0 <= i < node_room ==> asks_for_node(
                tree,
                #[trigger] actions.node_requests@[i],
                wished_nodes[i],
            )
        &&& actions.bulk_requests@.len() == bulk_room
        &&& forall|i: int|
            0 <= i < bulk_room ==> asks_for_bulk(
                tree,
                #[trigger] actions.bulk_requests@[i],
                wished_bulks[i],
            )
    }
}

/// Whether `request` asks for the node at `p`.
pub open spec fn asks_for_node<O>(tree: Octree<O>, request: NodeRequest, p: Path) -> bool {
    let node = tree.node(p);
    &&& request.path@ == p
    &&& request.epoch == node.epoch
    &&& request.texture_format == node.texture_format
    &&& request.imagery_epoch == node.imagery_epoch
}

/// Whether `request` asks for the bulk at `p`.
pub open spec fn asks_for_bulk<O>(tree: Octree<O>, request: BulkRequest, p: Path) -> bool {
    request.path@ == p && request.epoch == tree.child_epoch(p)
}

/// Stamps all members of `seen` with `now`.
fn mark_seen(stamps: &mut PathMap<u64>, seen: &PathSet, now: u64)
    ensures
        final(stamps)@ == refreshed(old(stamps)@, seen@, now, 0),
{
    let n: usize = seen.len();
    let ghost keys = seen.keys();
    let ghost before = stamps@;
    let mut i: usize = 0;
    assert(stamps@ =~= refreshed(before, keys.take(0).to_set(), now, 0));
    while i < n
        invariant
            i <= n,
            n == keys.len(),
            keys == seen.keys(),
            stamps@ == refreshed(before, keys.take(i as int).to_set(), now, 0),
        decreases n - i,
    {
        let key = seen.key_at(i);
        stamps.insert(key.clone(), now);
        proof {
            lemma_take_next(keys, i as int);
            assert(stamps@ =~= refreshed(before, keys.take(i + 1).to_set(), now, 0));
        }
        i = i + 1;
    }
    assert(keys.take(n as int) =~= keys);
    assert(seen@ =~= keys.to_set());
}

/// Drops the stamps before `cutoff`.
fn drop_lapsed(stamps: &mut PathMap<u64>, cutoff: u64)
    ensures
        final(stamps)@ == refreshed(old(stamps)@, Set::empty(), 0, cutoff),
{
    let n: usize = stamps.len();
    let ghost keys = stamps.keys();
    let ghost before = stamps@;
    let mut lapsed: Vec<String> = Vec::new();
    let mut i: usize = 0;
    while i < n
        invariant
            i <= n,
            n == keys.len(),
            keys == stamps.keys(),
            before == stamps@,
            forall|j: int|
                0 <= j < lapsed@.len() ==> before.contains_key((#[trigger] lapsed@[j])@)
                    && before[lapsed@[j]@] < cutoff,
            forall|j: int|
                0 <= j < i && before[#[trigger] keys[j]] < cutoff
                    ==> crate::path_map::text_paths(lapsed@).contains(keys[j]),
        decreases n - i,
    {
        let ghost sofar = crate::path_map::text_paths(lapsed@);
        if *stamps.value_at(i) < cutoff {
            let key = stamps.key_at(i);
            lapsed.push(key.clone());
            proof {
                let all = crate::path_map::text_paths(lapsed@);
                assert(all =~= sofar.push(keys[i as int]));
                assert(all[sofar.len() as int] == keys[i as int]);
                assert forall|j: int| 0 <= j < i && before[#[trigger] keys[j]] < cutoff implies
                    all.contains(keys[j]) by {
                    assert(all[sofar.index_of(keys[j])] == keys[j]);
                }
            }
        }
        i = i + 1;
    }
    stamps.remove_all(&lapsed);
    proof {
        let all = crate::path_map::text_paths(lapsed@);
        assert forall|p: Path| before.contains_key(p) implies (all.to_set().contains(p) <==> before[p]
            < cutoff) by {
            assert(keys.to_set().contains(p));
            let j = keys.index_of(p);
            assert(keys[j] == p);
            if all.contains(p) {
                let m = all.index_of(p);
                assert(lapsed@[m]@ == p);
            }
        }
        assert(stamps@ =~= refreshed(before, Set::empty(), 0, cutoff));
    }
}

/// Notes the volumes in `found` that are not known yet.
fn note_obbs<O: Copy>(obbs: &mut PathMap<O>, found: &Vec<(String, O)>)
    ensures
        forall|p: Path| #[trigger]
            final(obbs)@.contains_key(p) <==> old(obbs)@.contains_key(p) || pair_paths(
                found@,
            ).contains(p),
        forall|p: Path|
            old(obbs)@.contains_key(p) ==> #[trigger] final(obbs)@[p] == old(obbs)@[p],
        forall|p: Path| #[trigger]
            final(obbs)@.contains_key(p) && !old(obbs)@.contains_key(p) ==> exists|i: int|
                0 <= i < found@.len() && (#[trigger] found@[i]).0@ == p && final(obbs)@[p]
                    == found@[i].1,
{
    let ghost before = obbs@;
    let ghost paths = pair_paths(found@);
    let mut i: usize = 0;
    while i < found.len()
        invariant
            i <= found@.len(),
            paths == pair_paths(found@),
            forall|p: Path| #[trigger]
                obbs@.contains_key(p) <==> before.contains_key(p) || paths.take(i as int).contains(
                    p,
                ),
            forall|p: Path| before.contains_key(p) ==> #[trigger] obbs@[p] == before[p],
            forall|p: Path| #[trigger]
                obbs@.contains_key(p) && !before.contains_key(p) ==> exists|j: int|
                    0 <= j < found@.len() && (#[trigger] found@[j]).0@ == p && obbs@[p]
                        == found@[j].1,
        decreases found@.len() - i,
    {
        let ghost mid = obbs@;
        let entry = &found[i];
        if !obbs.contains_key(entry.0.as_str()) {
            obbs.insert(entry.0.clone(), entry.1);
        }
        proof {
            lemma_take_next(paths, i as int);
            assert(paths[i as int] == entry.0@);
            assert forall|p: Path| #[trigger]
                obbs@.contains_key(p) <==> before.contains_key(p) || paths.take(i + 1).contains(
                    p,
                ) by {
                assert(paths.take(i + 1).to_set().contains(p) <==> paths.take(i as int).to_set().insert(
                    paths[i as int],
                ).contains(p));
            }
            assert forall|p: Path| #[trigger]
                obbs@.contains_key(p) && !before.contains_key(p) implies exists|j: int|
                0 <= j < found@.len() && (#[trigger] found@[j]).0@ == p && obbs@[p]
                    == found@[j].1 by {
                if mid.contains_key(p) {
                    let j = choose|j: int|
                        0 <= j < found@.len() && (#[trigger] found@[j]).0@ == p && mid[p]
                            == found@[j].1;
                    assert(found@[j].0@ == p);
                } else {
                    assert(found@[i as int].0@ == p);
                }
            }
        }
        i = i + 1;
    }
    assert(paths.take(paths.len() as int) =~= paths);
}

pub proof fn lemma_first_seen(paths: Seq<Path>)
    ensures
        first_seen(paths).no_duplicates(),
        first_seen(paths).to_set() == paths.to_set(),
    decreases paths.len(),
{
    if paths.len() > 0 {
        let most = paths.drop_last();
        let last = paths.last();
        let rest = first_seen(most);
        lemma_first_seen(most);
        assert(paths.take(paths.len() as int) =~= paths);
        assert(paths.take(paths.len() - 1) =~= most);
        lemma_take_next(paths, paths.len() - 1);
        if !rest.contains(last) {
            let all = rest.push(last);
            assert forall|i: int, j: int| 0 <= i < j < all.len() implies all[i] != all[j] by {
                if j == rest.len() {
                    assert(rest.contains(rest[i]));
                }
            }
            assert(all.take(all.len() as int) =~= all);
            assert(all.take(rest.len() as int) =~= rest);
            lemma_take_next(all, rest.len() as int);
            assert(first_seen(paths).to_set() =~= paths.to_set());
        } else {
            assert(rest.to_set().contains(last));
            assert(first_seen(paths).to_set() =~= paths.to_set());
        }
    }
}

/// One more wish: it counts unless it stands earlier in the list.
proof fn lemma_first_seen_next(paths: Seq<Path>, i: int)
    requires
        0 <= i < paths.len(),
    ensures
        first_seen(paths.take(i + 1)) == if first_seen(paths.take(i)).contains(paths[i]) {
            first_seen(paths.take(i))
        } else {
            first_seen(paths.take(i)).push(paths[i])
        },
{
    assert(paths.take(i + 1).drop_last() =~= paths.take(i));
}

/// Starts one more load, if there is room and the wish is new.
///
/// `wished` lists the different wishes so far; those that fit are in `loading`.
fn start_load(
    loading: &mut PathSet,
    seen: &mut PathSet,
    path: &String,
    limit: usize,
    Ghost(running): Ghost<Set<Path>>,
    Ghost(wished): Ghost<Seq<Path>>,
) -> (started: bool)
    requires
        running.finite(),
        !running.contains(path@),
        wished.no_duplicates(),
        old(seen)@ == wished.to_set(),
        forall|p: Path| #[trigger] wished.contains(p) ==> !running.contains(p),
        old(loading)@ == running.union(
            wished.take(room(wished.len(), running.len(), limit as nat) as int).to_set(),
        ),
        old(loading)@.len() == running.len() + room(wished.len(), running.len(), limit as nat),
    ensures
        ({
            let now = if wished.contains(path@) {
                wished
            } else {
                wished.push(path@)
            };
            let before = room(wished.len(), running.len(), limit as nat);
            let after = room(now.len(), running.len(), limit as nat);
            &&& final(seen)@ == now.to_set()
            &&& final(loading)@ == running.union(now.take(after as int).to_set())
            &&& final(loading)@.len() == running.len() + after
            &&& after == before + if started {
                1nat
            } else {
                0nat
            }
            &&& started ==> before == wished.len() && !wished.contains(path@)
        }),
{
    let ghost w = wished.len() as int;
    let ghost now = wished.push(path@);
    let fresh = seen.insert(path.clone());
    assert(fresh == !wished.contains(path@));
    if !fresh {
        assert(seen@ =~= wished.to_set());
        return false;
    }
    proof {
        assert(now.take(w) =~= wished);
        assert(now.take(w + 1) =~= now);
        lemma_take_next(now, w);
        assert(seen@ =~= now.to_set());
    }
    let count: usize = loading.len();
    if count < limit {
        let ghost was = loading@;
        proof {
            assert(wished.take(w) =~= wished);
            assert(!was.contains(path@));
        }
        loading.insert(path.clone());
        assert(loading@ =~= running.union(now.take(w + 1).to_set()));
        true
    } else {
        proof {
            let r = room(wished.len(), running.len(), limit as nat) as int;
            assert(now.take(r) =~= wished.take(r));
        }
        false
    }
}

/// Requests the wished nodes that there is room for.
fn issue_node_requests<O>(
    loading: &mut PathSet,
    first: &Vec<NodeMetadata<O>>,
    second: &Vec<NodeMetadata<O>>,
    Ghost(tree): Ghost<Octree<O>>,
) -> (requests: Vec<NodeRequest>)
    requires
        nodes_right(tree, first@),
        nodes_right(tree, second@),
        forall|p: Path| #[trigger]
            (node_paths(first@) + node_paths(second@)).contains(p) ==> !old(loading)@.contains(p),
    ensures
        ({
            let wished = first_seen(node_paths(first@) + node_paths(second@));
            let k = room(wished.len(), old(loading)@.len(), MAX_NODE_LOADS as nat);
            &&& final(loading)@ == old(loading)@.union(wished.take(k as int).to_set())
            &&& requests@.len() == k
            &&& forall|i: int|
                0 <= i < k ==> asks_for_node(tree, #[trigger] requests@[i], wished[i])
        }),
{
    let ghost paths = node_paths(first@) + node_paths(second@);
    let ghost running = loading@;
    let mut seen = PathSet::new();
    let mut requests: Vec<NodeRequest> = Vec::new();
    let mut i: usize = 0;
    let _running: usize = loading.len();
    proof {
        let none = first_seen(paths.take(0));
        assert(none =~= Seq::<Path>::empty());
        assert(none.take(0).to_set() =~= Set::<Path>::empty());
        assert(none.to_set() =~= Set::<Path>::empty());
        assert(running.union(Set::<Path>::empty()) =~= running);
    }
    let n: usize = first.len();
    let m: usize = second.len();
    while i < n
        invariant
            i <= n,
            n == first@.len(),
            paths == node_paths(first@) + node_paths(second@),
            nodes_right(tree, first@),
            running.finite(),
            forall|p: Path| #[trigger] paths.contains(p) ==> !running.contains(p),
            seen@ == first_seen(paths.take(i as int)).to_set(),
            ({
                let wished = first_seen(paths.take(i as int));
                let k = room(wished.len(), running.len(), MAX_NODE_LOADS as nat);
                &&& loading@ == running.union(wished.take(k as int).to_set())
                &&& loading@.len() == running.len() + k
                &&& requests@.len() == k
                &&& forall|j: int|
                    0 <= j < k ==> asks_for_node(tree, #[trigger] requests@[j], wished[j])
            }),
        decreases n - i,
    {
        let node = &first[i];
        proof {
            assert(paths[i as int] == node.path@);
            lemma_wishes_absent(paths, i as int, running);
            assert(nodes_right(tree, first@));
            assert(*node == tree.node(node.path@));
        }
        if start_load(
            loading,
            &mut seen,
            &node.path,
            MAX_NODE_LOADS,
            Ghost(running),
            Ghost(first_seen(paths.take(i as int))),
        ) {
            requests.push(
                NodeRequest {
                    path: node.path.clone(),
                    epoch: node.epoch,
                    texture_format: node.texture_format,
                    imagery_epoch: node.imagery_epoch,
                },
            );
        }
        i = i + 1;
    }
    let mut j: usize = 0;
    while j < m
        invariant
            j <= m,
            n == first@.len(),
            m == second@.len(),
            paths == node_paths(first@) + node_paths(second@),
            nodes_right(tree, second@),
            running.finite(),
            forall|p: Path| #[trigger] paths.contains(p) ==> !running.contains(p),
            seen@ == first_seen(paths.take(n + j)).to_set(),
            ({
                let wished = first_seen(paths.take(n + j));
                let k = room(wished.len(), running.len(), MAX_NODE_LOADS as nat);
                &&& loading@ == running.union(wished.take(k as int).to_set())
                &&& loading@.len() == running.len() + k
                &&& requests@.len() == k
                &&& forall|j: int|
                    0 <= j < k ==> asks_for_node(tree, #[trigger] requests@[j], wished[j])
            }),
        decreases m - j,
    {
        let node = &second[j];
        proof {
            assert(paths[n + j] == node.path@);
            lemma_wishes_absent(paths, n + j, running);
            assert(*node == tree.node(node.path@));
        }
        if start_load(
            loading,
            &mut seen,
            &node.path,
            MAX_NODE_LOADS,
            Ghost(running),
            Ghost(first_seen(paths.take(n + j))),
        ) {
            requests.push(
                NodeRequest {
                    path: node.path.clone(),
                    epoch: node.epoch,
                    texture_format: node.texture_format,
                    imagery_epoch: node.imagery_epoch,
                },
            );
        }
        j = j + 1;
    }
    assert(paths.take(n + m) =~= paths);
    requests
}

/// None of the wishes so far is under way, nor is the next; and how the next one counts.
proof fn lemma_wishes_absent(paths: Seq<Path>, i: int, running: Set<Path>)
    requires
        0 <= i < paths.len(),
        forall|p: Path| #[trigger] paths.contains(p) ==> !running.contains(p),
    ensures
        first_seen(paths.take(i)).no_duplicates(),
        forall|p: Path| #[trigger] first_seen(paths.take(i)).contains(p) ==> !running.contains(p),
        !running.contains(paths[i]),
        first_seen(paths.take(i + 1)) == if first_seen(paths.take(i)).contains(paths[i]) {
            first_seen(paths.take(i))
        } else {
            first_seen(paths.take(i)).push(paths[i])
        },
{
    lemma_first_seen(paths.take(i));
    lemma_first_seen_next(paths, i);
    assert(paths.contains(paths[i]));
    assert forall|p: Path| #[trigger]
        first_seen(paths.take(i)).contains(p) implies !running.contains(p) by {
        assert(first_seen(paths.take(i)).to_set().contains(p));
        assert(paths.take(i).contains(p));
        assert(paths[paths.take(i).index_of(p)] == p);
        assert(paths.contains(p));
    }
}

/// Requests the wished bulks that there is room for.
fn issue_bulk_requests<O>(
    loading: &mut PathSet,
    first: &Vec<(String, u32)>,
    second: &Vec<(String, u32)>,
    Ghost(tree): Ghost<Octree<O>>,
) -> (requests: Vec<BulkRequest>)
    requires
        epochs_right(tree, first@),
        epochs_right(tree, second@),
        forall|p: Path| #[trigger]
            (pair_paths(first@) + pair_paths(second@)).contains(p) ==> !old(loading)@.contains(p),
    ensures
        ({
            let wished = first_seen(pair_paths(first@) + pair_paths(second@));
            let k = room(wished.len(), old(loading)@.len(), MAX_BULK_LOADS as nat);
            &&& final(loading)@ == old(loading)@.union(wished.take(k as int).to_set())
            &&& requests@.len() == k
            &&& forall|i: int|
                0 <= i < k ==> asks_for_bulk(tree, #[trigger] requests@[i], wished[i])
        }),
{
    let ghost paths = pair_paths(first@) + pair_paths(second@);
    let ghost running = loading@;
    let mut seen = PathSet::new();
    let mut requests: Vec<BulkRequest> = Vec::new();
    let mut i: usize = 0;
    let _running: usize = loading.len();
    proof {
        let none = first_seen(paths.take(0));
        assert(none =~= Seq::<Path>::empty());
        assert(none.take(0).to_set() =~= Set::<Path>::empty());
        assert(none.to_set() =~= Set::<Path>::empty());
        assert(running.union(Set::<Path>::empty()) =~= running);
    }
    let n: usize = first.len();
    let m: usize = second.len();
    while i < n
        invariant
            i <= n,
            n == first@.len(),
            paths == pair_paths(first@) + pair_paths(second@),
            epochs_right(tree, first@),
            running.finite(),
            forall|p: Path| #[trigger] paths.contains(p) ==> !running.contains(p),
            seen@ == first_seen(paths.take(i as int)).to_set(),
            ({
                let wished = first_seen(paths.take(i as int));
                let k = room(wished.len(), running.len(), MAX_BULK_LOADS as nat);
                &&& loading@ == running.union(wished.take(k as int).to_set())
                &&& loading@.len() == running.len() + k
                &&& requests@.len() == k
                &&& forall|j: int|
                    0 <= j < k ==> asks_for_bulk(tree, #[trigger] requests@[j], wished[j])
            }),
        decreases n - i,
    {
        let bulk = &first[i];
        proof {
            assert(paths[i as int] == bulk.0@);
            lemma_wishes_absent(paths, i as int, running);
            assert(bulk.1 == tree.child_epoch(bulk.0@));
        }
        if start_load(
            loading,
            &mut seen,
            &bulk.0,
            MAX_BULK_LOADS,
            Ghost(running),
            Ghost(first_seen(paths.take(i as int))),
        ) {
            requests.push(BulkRequest { path: bulk.0.clone(), epoch: bulk.1 });
        }
        i = i + 1;
    }
    let mut j: usize = 0;
    while j < m
        invariant
            j <= m,
            n == first@.len(),
            m == second@.len(),
            paths == pair_paths(first@) + pair_paths(second@),
            epochs_right(tree, second@),
            running.finite(),
            forall|p: Path| #[trigger] paths.contains(p) ==> !running.contains(p),
            seen@ == first_seen(paths.take(n + j)).to_set(),
            ({
                let wished = first_seen(paths.take(n + j));
                let k = room(wished.len(), running.len(), MAX_BULK_LOADS as nat);
                &&& loading@ == running.union(wished.take(k as int).to_set())
                &&& loading@.len() == running.len() + k
                &&& requests@.len() == k
                &&& forall|j: int|
                    0 <= j < k ==> asks_for_bulk(tree, #[trigger] requests@[j], wished[j])
            }),
        decreases m - j,
    {
        let bulk = &second[j];
        proof {
            assert(paths[n + j] == bulk.0@);
            lemma_wishes_absent(paths, n + j, running);
            assert(bulk.1 == tree.child_epoch(bulk.0@));
        }
        if start_load(
            loading,
            &mut seen,
            &bulk.0,
            MAX_BULK_LOADS,
            Ghost(running),
            Ghost(first_seen(paths.take(n + j))),
        ) {
            requests.push(BulkRequest { path: bulk.0.clone(), epoch: bulk.1 });
        }
        j = j + 1;
    }
    assert(paths.take(n + m) =~= paths);
    requests
}

impl<O> LodScratch<O> {
    /// Empty results.
    pub fn new() -> (scratch: Self)
        ensures
            scratch.render_result.nodes_to_load@.len() == 0,
            scratch.render_result.bulks_to_load@.len() == 0,
            scratch.render_result.potential_nodes@ == Set::<Path>::empty(),
            scratch.render_result.potential_bulks@ == Set::<Path>::empty(),
            scratch.render_result.discovered_obbs@.len() == 0,
            scratch.physics_result.collider_paths@ == Set::<Path>::empty(),
            scratch.physics_result.nodes_to_load@.len() == 0,
            scratch.physics_result.bulks_to_load@.len() == 0,
            scratch.physics_result.potential_nodes@ == Set::<Path>::empty(),
            scratch.physics_result.potential_bulks@ == Set::<Path>::empty(),
            scratch.physics_result.discovered_obbs@.len() == 0,
    {
        LodScratch { render_result: BfsResult::new(), physics_result: PhysicsBfsResult::new() }
    }

    /// Whether `after` is this result once its lists of what to load are emptied.
    pub open spec fn drains_to(&self, after: &Self) -> bool {
        &&& after.render_result.nodes_to_load@.len() == 0
        &&& after.render_result.bulks_to_load@.len() == 0
        &&& after.render_result.potential_nodes == self.render_result.potential_nodes
        &&& after.render_result.potential_bulks == self.render_result.potential_bulks
        &&& after.render_result.discovered_obbs == self.render_result.discovered_obbs
        &&& after.physics_result.collider_paths == self.physics_result.collider_paths
        &&& after.physics_result.nodes_to_load@.len() == 0
        &&& after.physics_result.bulks_to_load@.len() == 0
        &&& after.physics_result.potential_nodes == self.physics_result.potential_nodes
        &&& after.physics_result.potential_bulks == self.physics_result.potential_bulks
        &&& after.physics_result.discovered_obbs == self.physics_result.discovered_obbs
    }

    /// Empties the lists of what to load, keeping their buffers.
    fn drain(&mut self)
        ensures
            old(self).drains_to(final(self)),
    {
        self.render_result.nodes_to_load.clear();
        self.render_result.bulks_to_load.clear();
        self.physics_result.nodes_to_load.clear();
        self.physics_result.bulks_to_load.clear();
    }
}

/// Writes down the outcome of both walks: volumes met, nodes and bulks asked for, collider hosts.
fn note_walks<O: Copy, D>(
    state: &mut LodState<O, D>,
    scratch: &LodScratch<O>,
    view: &FrameView,
    now: u64,
    grace: u64,
)
    requires
        old(state).wf(),
        old(state).render_finds(view, &scratch.render_result),
        old(state).physics_finds(view, &scratch.physics_result),
    ensures
        final(state).wf(),
        old(state).notes(view, now, grace, final(state)),
{
    let ghost tree = state.octree(view);
    let ghost before = *state;
    let render = &scratch.render_result;
    let physics = &scratch.physics_result;
    note_obbs(&mut state.node_obbs, &render.discovered_obbs);
    let ghost mid = state.node_obbs@;
    note_obbs(&mut state.node_obbs, &physics.discovered_obbs);
    proof {
        let met = tree.discovered_set().union(tree.touched_set());
        assert forall|p: Path| #[trigger]
            state.node_obbs@.contains_key(p) implies state.node_obbs@[p] == with_obbs(
            before.node_obbs@,
            tree,
            met,
        )[p] by {
            if !mid.contains_key(p) {
                let i = choose|i: int|
                    0 <= i < physics.discovered_obbs@.len() && (
                    #[trigger] physics.discovered_obbs@[i]).0@ == p && state.node_obbs@[p]
                        == physics.discovered_obbs@[i].1;
                assert(physics.discovered_obbs@[i].1 == tree.node(p).obb);
            } else if !before.node_obbs@.contains_key(p) {
                let i = choose|i: int|
                    0 <= i < render.discovered_obbs@.len() && (
                    #[trigger] render.discovered_obbs@[i]).0@ == p && mid[p]
                        == render.discovered_obbs@[i].1;
                assert(render.discovered_obbs@[i].1 == tree.node(p).obb);
                assert(state.node_obbs@[p] == mid[p]);
            } else {
                assert(mid[p] == before.node_obbs@[p]);
                assert(state.node_obbs@[p] == mid[p]);
            }
        }
        assert(state.node_obbs@ =~= with_obbs(before.node_obbs@, tree, met));
    }
    mark_seen(&mut state.node_last_seen, &render.potential_nodes, now);
    mark_seen(&mut state.node_last_seen, &physics.potential_nodes, now);
    mark_seen(&mut state.bulk_last_seen, &render.potential_bulks, now);
    mark_seen(&mut state.bulk_last_seen, &physics.potential_bulks, now);
    let cutoff: u64 = if now >= grace {
        now - grace
    } else {
        0
    };
    drop_lapsed(&mut state.node_last_seen, cutoff);
    drop_lapsed(&mut state.bulk_last_seen, cutoff);
    proof {
        assert(state.node_last_seen@ =~= refreshed(
            before.node_last_seen@,
            tree.visible_set().union(tree.touched_set()),
            now,
            cutoff,
        ));
        assert(state.bulk_last_seen@ =~= refreshed(
            before.bulk_last_seen@,
            tree.render_bulks().union(tree.physics_bulks()),
            now,
            cutoff,
        ));
    }
    state.physics_target_paths = physics.collider_paths.duplicate();
}

/// All keys of a map, as a set.
fn key_set<V>(map: &PathMap<V>) -> (set: PathSet)
    ensures
        set@ == map@.dom(),
{
    let n: usize = map.len();
    let ghost keys = map.keys();
    let mut set = PathSet::new();
    let mut i: usize = 0;
    assert(set@ =~= keys.take(0).to_set());
    while i < n
        invariant
            i <= n,
            n == keys.len(),
            keys == map.keys(),
            set@ == keys.take(i as int).to_set(),
        decreases n - i,
    {
        set.insert(map.key_at(i).clone());
        proof {
            lemma_take_next(keys, i as int);
        }
        i = i + 1;
    }
    assert(keys.take(n as int) =~= keys);
    set
}

/// Makes all members of `more` members of `set`.
fn add_all(set: &mut PathSet, more: &PathSet)
    ensures
        final(set)@ == old(set)@.union(more@),
{
    let n: usize = more.len();
    let ghost keys = more.keys();
    let ghost before = set@;
    let mut i: usize = 0;
    assert(set@ =~= before.union(keys.take(0).to_set()));
    while i < n
        invariant
            i <= n,
            n == keys.len(),
            keys == more.keys(),
            set@ == before.union(keys.take(i as int).to_set()),
        decreases n - i,
    {
        set.insert(more.key_at(i).clone());
        proof {
            lemma_take_next(keys, i as int);
            assert(set@ =~= before.union(keys.take(i + 1).to_set()));
        }
        i = i + 1;
    }
    assert(keys.take(n as int) =~= keys);
    assert(more@ =~= keys.to_set());
}

/// Runs both walks and brings the caches in line with what they ask for.
///
/// `now` and `grace` are in nanoseconds; what neither walk asked for within `grace` is dropped.
/// The lists of what to load are used up; the rest of what the walks found stays in `scratch`.
/// If a snapshot was asked for, it shows the state before anything is dropped; `slots` is the
/// number of depths that it counts one by one.
pub fn update_lod_requests<O: Copy, D>(
    state: &mut LodState<O, D>,
    scratch: &mut LodScratch<O>,
    view: &FrameView,
    now: u64,
    grace: u64,
    slots: usize,
    snapshot_request: &mut LodSnapshotRequest,
    snapshot: &mut LodSnapshot<O>,
) -> (actions: LodActions)
    requires
        old(state).wf(),
    ensures
        final(state).wf(),
        exists|found: LodScratch<O>, noted: LodState<O, D>|
            {
                &&& old(state).render_finds(view, &found.render_result)
                &&& old(state).physics_finds(view, &found.physics_result)
                &&& #[trigger] found.drains_to(final(scratch))
                &&& #[trigger] old(state).notes(view, now, grace, &noted)
                &&& noted.settles(
                    old(state).octree(view),
                    old(state).hosts(view),
                    &found,
                    final(state),
                    &actions,
                )
                &&& old(snapshot_request).wanted ==> noted.pictured(
                    &found.render_result,
                    &found.physics_result,
                    slots,
                    final(snapshot),
                )
            },
        !final(snapshot_request).wanted,
        !old(snapshot_request).wanted ==> *final(snapshot) == *old(snapshot),
{
    let ghost tree = state.octree(view);
    let ghost hosts = state.hosts(view);
    bfs_traversal(state, view, &mut scratch.render_result);
    physics_bfs_traversal(state, view, &mut scratch.physics_result);
    note_walks(state, scratch, view, now, grace);
    let ghost found = *scratch;
    let ghost noted = *state;
    assert(old(state).notes(view, now, grace, &noted));
    if snapshot_request.wanted {
        snapshot_request.wanted = false;
        populate_snapshot(
            state,
            &scratch.render_result,
            &scratch.physics_result,
            slots,
            snapshot,
        );
    }
    let mut retained_nodes = key_set(&state.node_last_seen);
    add_all(&mut retained_nodes, &scratch.physics_result.collider_paths);
    let retained_bulks = key_set(&state.bulk_last_seen);
    let despawn = unload_obsolete(
        state,
        &retained_nodes,
        &retained_bulks,
        &scratch.physics_result.collider_paths,
    );
    proof {
        let r = &scratch.render_result;
        let f = &scratch.physics_result;
        let wished_nodes = node_paths(r.nodes_to_load@) + node_paths(f.nodes_to_load@);
        assert forall|p: Path| #[trigger] wished_nodes.contains(
            p,
        ) implies !state.loading_nodes@.contains(p) by {
            lemma_in_either(node_paths(r.nodes_to_load@), node_paths(f.nodes_to_load@), p);
        }
        let wished_bulks = pair_paths(r.bulks_to_load@) + pair_paths(f.bulks_to_load@);
        assert forall|p: Path| #[trigger] wished_bulks.contains(
            p,
        ) implies !state.loading_bulks@.contains(p) by {
            lemma_in_either(pair_paths(r.bulks_to_load@), pair_paths(f.bulks_to_load@), p);
        }
    }
    let node_requests = issue_node_requests(
        &mut state.loading_nodes,
        &scratch.render_result.nodes_to_load,
        &scratch.physics_result.nodes_to_load,
        Ghost(tree),
    );
    let bulk_requests = issue_bulk_requests::<O>(
        &mut state.loading_bulks,
        &scratch.render_result.bulks_to_load,
        &scratch.physics_result.bulks_to_load,
        Ghost(tree),
    );
    scratch.drain();
    let actions = LodActions { despawn, node_requests, bulk_requests };
    assert(noted.settles(tree, hosts, &found, state, &actions));
    actions
}

pub proof fn lemma_in_either(a: Seq<Path>, b: Seq<Path>, p: Path)
    requires
        (a + b).contains(p),
    ensures
        a.contains(p) || b.contains(p),
{
    let i = (a + b).index_of(p);
    if i < a.len() {
        assert(a[i] == p);
    } else {
        assert(b[i - a.len()] == p);
    }
}

} // verus!
