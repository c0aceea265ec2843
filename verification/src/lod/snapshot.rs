//! A picture of the streaming state for the diagnostics panel.

use vstd::prelude::*;
use vstd::string::*;
use crate::path_map::{lemma_select_next, lemma_take_next, select, Path, PathSet};
use super::physics::PhysicsBfsResult;
use super::render::BfsResult;
use super::state::LodState;

verus! {

/// Which walks asked for a node.
#[derive(Clone, Copy, Debug, PartialEq, Eq, Structural)]
pub struct NodeSources {
    /// The render walk did.
    pub render: bool,
    /// The physics walk did.
    pub physics: bool,
}

/// How far the loading of a node has come.
#[derive(Clone, Copy, Debug, PartialEq, Eq, Structural)]
pub enum SnapshotNodeState {
    /// The node is known; its data is not here and not on its way.
    Discovered,
    /// A request is in flight.
    Loading,
    /// The data is cached.
    Loaded,
}

/// One node of a snapshot.
pub struct SnapshotNode<O> {
    pub path: String,
    pub depth: usize,
    pub obb: O,
    pub state: SnapshotNodeState,
    pub sources: NodeSources,
}

/// How much is loaded and on its way, in all and depth by depth.
pub struct SnapshotCounters {
    pub render_loaded: usize,
    pub render_loading: usize,
    pub physics_colliders: usize,
    pub bulks_cached: usize,
    pub bulks_loading: usize,
    pub bulks_failed: usize,
    pub render_loaded_by_depth: Vec<usize>,
    pub render_loading_by_depth: Vec<usize>,
    pub physics_loaded_by_depth: Vec<usize>,
    pub physics_loading_by_depth: Vec<usize>,
    pub physics_colliders_by_depth: Vec<usize>,
}

/// What the diagnostics panel draws.
#[verifier::reject_recursive_types(O)]
pub struct LodSnapshot<O> {
    /// Every node that either walk asked for and whose bounding volume is known.
    pub nodes: Vec<SnapshotNode<O>>,
    /// The nodes chosen as collider hosts.
    pub physics_collider_paths: PathSet,
    pub counters: SnapshotCounters,
}

/// Asks for a snapshot at the next update.
pub struct LodSnapshotRequest {
    pub wanted: bool,
}

/// The members of `set` at depth `d`.
pub open spec fn at_depth(set: Set<Path>, d: int) -> Set<Path> {
    Set::new(|p: Path| set.contains(p) && p.len() == d)
}

/// Whether `counts` tells for each depth how many members of `set` lie there.
pub open spec fn counts_depths(counts: Seq<usize>, set: Set<Path>) -> bool {
    forall|d: int| 0 <= d < counts.len() ==> #[trigger] counts[d] == at_depth(set, d).len()
}

impl<O, D> LodState<O, D> {
    /// How far the loading of the node at `p` has come.
    pub open spec fn node_state(&self, p: Path) -> SnapshotNodeState {
        if self.node_data@.contains_key(p) {
            SnapshotNodeState::Loaded
        } else if self.loading_nodes@.contains(p) {
            SnapshotNodeState::Loading
        } else {
            SnapshotNodeState::Discovered
        }
    }

    /// The members of `set` in the loading state `stage`.
    pub open spec fn in_state(&self, set: Set<Path>, stage: SnapshotNodeState) -> Set<Path> {
        Set::new(|p: Path| set.contains(p) && self.node_state(p) == stage)
    }

    /// Finds how far the loading of the node at `path` has come.
    fn find_node_state(&self, path: &str) -> (stage: SnapshotNodeState)
        ensures
            stage == self.node_state(path@),
    {
        if self.node_data.contains_key(path) {
            SnapshotNodeState::Loaded
        } else if self.loading_nodes.contains(path) {
            SnapshotNodeState::Loading
        } else {
            SnapshotNodeState::Discovered
        }
    }

    /// Counts the members of `set` in the state `stage`, depth by depth.
    fn count_in_state(&self, set: &PathSet, stage: SnapshotNodeState, slots: usize) -> (counts: Vec<
        usize,
    >)
        ensures
            counts@.len() == slots,
            counts_depths(counts@, self.in_state(set@, stage)),
    {
        let n: usize = set.len();
        let ghost keys = set.keys();
        let mut chosen = PathSet::new();
        let mut i: usize = 0;
        proof {
            assert(keys.take(0).to_set() =~= Set::<Path>::empty());
            assert(chosen@ =~= self.in_state(keys.take(0).to_set(), stage));
        }
        while i < n
            invariant
                i <= n,
                n == keys.len(),
                keys == set.keys(),
                chosen@ == self.in_state(keys.take(i as int).to_set(), stage),
            decreases n - i,
        {
            let key = set.key_at(i);
            proof {
                lemma_take_next(keys, i as int);
            }
            if self.find_node_state(key.as_str()) == stage {
                chosen.insert(key.clone());
            }
            i = i + 1;
            assert(chosen@ =~= self.in_state(keys.take(i as int).to_set(), stage));
        }
        proof {
            assert(keys.take(n as int) =~= keys);
            assert(set@ =~= keys.to_set());
        }
        count_by_depth(&chosen, slots)
    }
}

/// Counts the members of `set` depth by depth.
fn count_by_depth(set: &PathSet, slots: usize) -> (counts: Vec<usize>)
    ensures
        counts@.len() == slots,
        counts_depths(counts@, set@),
{
    let n: usize = set.len();
    let ghost keys = set.keys();
    let mut counts: Vec<usize> = Vec::new();
    let mut d: usize = 0;
    while d < slots
        invariant
            d <= slots,
            counts@.len() == d,
            forall|e: int| 0 <= e < d ==> counts@[e] == 0,
        decreases slots - d,
    {
        counts.push(0);
        d = d + 1;
    }
    let mut i: usize = 0;
    proof {
        assert(keys.take(0).to_set() =~= Set::<Path>::empty());
        assert forall|e: int| 0 <= e < counts@.len() implies #[trigger] counts@[e] == at_depth(
            keys.take(0).to_set(),
            e,
        ).len() by {
            assert(at_depth(keys.take(0).to_set(), e) =~= Set::<Path>::empty());
        }
    }
    while i < n
        invariant
            i <= n,
            n == keys.len(),
            keys == set.keys(),
            keys.no_duplicates(),
            counts@.len() == slots,
            counts_depths(counts@, keys.take(i as int).to_set()),
            forall|e: int| 0 <= e < counts@.len() ==> #[trigger] counts@[e] <= i,
        decreases n - i,
    {
        let key = set.key_at(i);
        let depth: usize = key.as_str().unicode_len();
        let ghost before = counts@;
        let ghost done = keys.take(i as int).to_set();
        if depth < counts.len() {
            let count: usize = counts[depth];
            counts.set(depth, count + 1);
        }
        proof {
            lemma_take_next(keys, i as int);
            assert(!done.contains(key@)) by {
                if keys.take(i as int).contains(key@) {
                    let j = keys.take(i as int).index_of(key@);
                    assert(keys[j] == keys[i as int]);
                }
            }
            assert forall|e: int| 0 <= e < counts@.len() implies #[trigger] counts@[e] == at_depth(
                keys.take(i + 1).to_set(),
                e,
            ).len() by {
                assert(before[e] == at_depth(done, e).len());
                assert(at_depth(done, e).subset_of(done));
                assert(done.finite());
                vstd::set_lib::lemma_set_subset_finite(done, at_depth(done, e));
                if e == depth {
                    assert(at_depth(keys.take(i + 1).to_set(), e) =~= at_depth(done, e).insert(
                        key@,
                    ));
                } else {
                    assert(at_depth(keys.take(i + 1).to_set(), e) =~= at_depth(done, e));
                }
            }
        }
        i = i + 1;
    }
    proof {
        assert(keys.take(n as int) =~= keys);
        assert(set@ =~= keys.to_set());
    }
    counts
}

/// The paths of a run of snapshot nodes.
pub open spec fn drawn_paths<O>(nodes: Seq<SnapshotNode<O>>) -> Seq<Path> {
    nodes.map_values(|n: SnapshotNode<O>| n.path@)
}

impl<O, D> LodState<O, D> {
    /// Whether `node` tells the truth about the node under its path.
    pub open spec fn draws(
        &self,
        node: SnapshotNode<O>,
        render: Set<Path>,
        physics: Set<Path>,
    ) -> bool {
        let p = node.path@;
        &&& node.depth == p.len()
        &&& self.node_obbs@.contains_key(p)
        &&& node.obb == self.node_obbs@[p]
        &&& node.state == self.node_state(p)
        &&& node.sources == (NodeSources {
            render: render.contains(p),
            physics: physics.contains(p),
        })
    }

    /// Whether `shot` is a picture of this state after the two walks.
    pub open spec fn pictured(
        &self,
        render: &BfsResult<O>,
        physics: &PhysicsBfsResult<O>,
        slots: usize,
        shot: &LodSnapshot<O>,
    ) -> bool {
        let r = render.potential_nodes@;
        let f = physics.potential_nodes@;
        let c = shot.counters;
        &&& drawn_paths(shot.nodes@) == select(
            render.potential_nodes.keys(),
            self.node_obbs@.dom(),
        ) + select(physics.potential_nodes.keys(), self.node_obbs@.dom().difference(r))
        &&& forall|i: int| 0 <= i < shot.nodes@.len() ==> self.draws(#[trigger] shot.nodes@[i], r, f)
        &&& shot.physics_collider_paths@ == physics.collider_paths@
        &&& c.render_loaded == self.loaded_nodes@.len()
        &&& c.render_loading == self.loading_nodes@.len()
        &&& c.physics_colliders == self.physics_colliders@.dom().len()
        &&& c.bulks_cached == self.bulks@.dom().len()
        &&& c.bulks_loading == self.loading_bulks@.len()
        &&& c.bulks_failed == self.failed_bulks@.len()
        &&& c.render_loaded_by_depth@.len() == slots
        &&& c.render_loading_by_depth@.len() == slots
        &&& c.physics_loaded_by_depth@.len() == slots
        &&& c.physics_loading_by_depth@.len() == slots
        &&& c.physics_colliders_by_depth@.len() == slots
        &&& counts_depths(
            c.render_loaded_by_depth@,
            self.in_state(r, SnapshotNodeState::Loaded),
        )
        &&& counts_depths(
            c.render_loading_by_depth@,
            self.in_state(r, SnapshotNodeState::Loading),
        )
        &&& counts_depths(
            c.physics_loaded_by_depth@,
            self.in_state(f, SnapshotNodeState::Loaded),
        )
        &&& counts_depths(
            c.physics_loading_by_depth@,
            self.in_state(f, SnapshotNodeState::Loading),
        )
        &&& counts_depths(c.physics_colliders_by_depth@, physics.collider_paths@)
    }
}

/// Adds to `nodes` those members of `set` outside `skip` whose bounding volume is known.
fn draw_nodes<O: Copy, D>(
    state: &LodState<O, D>,
    set: &PathSet,
    skip: &PathSet,
    render: &PathSet,
    physics: &PathSet,
    nodes: &mut Vec<SnapshotNode<O>>,
)
    requires
        forall|i: int|
            0 <= i < old(nodes)@.len() ==> state.draws(
                #[trigger] old(nodes)@[i],
                render@,
                physics@,
            ),
    ensures
        drawn_paths(final(nodes)@) == drawn_paths(old(nodes)@) + select(
            set.keys(),
            state.node_obbs@.dom().difference(skip@),
        ),
        forall|i: int|
            0 <= i < final(nodes)@.len() ==> state.draws(
                #[trigger] final(nodes)@[i],
                render@,
                physics@,
            ),
{
    let n: usize = set.len();
    let ghost keys = set.keys();
    let ghost wanted = state.node_obbs@.dom().difference(skip@);
    let ghost first = drawn_paths(nodes@);
    let mut i: usize = 0;
    assert(drawn_paths(nodes@) =~= first + select(keys.take(0), wanted));
    while i < n
        invariant
            i <= n,
            n == keys.len(),
            keys == set.keys(),
            wanted == state.node_obbs@.dom().difference(skip@),
            drawn_paths(nodes@) == first + select(keys.take(i as int), wanted),
            forall|j: int|
                0 <= j < nodes@.len() ==> state.draws(#[trigger] nodes@[j], render@, physics@),
        decreases n - i,
    {
        let key = set.key_at(i);
        proof {
            lemma_select_next(keys, wanted, i as int);
        }
        if !skip.contains(key.as_str()) {
            match state.node_obbs.get(key.as_str()) {
                Some(obb) => {
                    let ghost before = drawn_paths(nodes@);
                    let depth: usize = key.as_str().unicode_len();
                    let stage = state.find_node_state(key.as_str());
                    let sources = NodeSources {
                        render: render.contains(key.as_str()),
                        physics: physics.contains(key.as_str()),
                    };
                    nodes.push(
                        SnapshotNode { path: key.clone(), depth, obb: *obb, state: stage, sources },
                    );
                    assert(drawn_paths(nodes@) =~= before.push(key@));
                    assert(before.push(key@) =~= first + select(keys.take(i + 1), wanted));
                },
                None => {},
            }
        }
        i = i + 1;
    }
    assert(keys.take(n as int) =~= keys);
}

/// Takes a snapshot of the streaming state and of what both walks asked for.
///
/// `slots` is the number of depths that are counted one by one.
pub fn populate_snapshot<O: Copy, D>(
    state: &LodState<O, D>,
    render: &BfsResult<O>,
    physics: &PhysicsBfsResult<O>,
    slots: usize,
    snapshot: &mut LodSnapshot<O>,
)
    ensures
        state.pictured(render, physics, slots, final(snapshot)),
{
    let r = &render.potential_nodes;
    let f = &physics.potential_nodes;
    let none = PathSet::new();
    let mut nodes: Vec<SnapshotNode<O>> = Vec::new();
    draw_nodes(state, r, &none, r, f, &mut nodes);
    draw_nodes(state, f, r, r, f, &mut nodes);
    proof {
        let known = state.node_obbs@.dom();
        assert(known.difference(Set::<Path>::empty()) =~= known);
        assert(drawn_paths(nodes@) =~= select(r.keys(), known) + select(
            f.keys(),
            known.difference(r@),
        ));
    }
    let counters = SnapshotCounters {
        render_loaded: state.loaded_nodes.len(),
        render_loading: state.loading_nodes.len(),
        physics_colliders: state.physics_colliders.len(),
        bulks_cached: state.bulks.len(),
        bulks_loading: state.loading_bulks.len(),
        bulks_failed: state.failed_bulks.len(),
        render_loaded_by_depth: state.count_in_state(r, SnapshotNodeState::Loaded, slots),
        render_loading_by_depth: state.count_in_state(r, SnapshotNodeState::Loading, slots),
        physics_loaded_by_depth: state.count_in_state(f, SnapshotNodeState::Loaded, slots),
        physics_loading_by_depth: state.count_in_state(f, SnapshotNodeState::Loading, slots),
        physics_colliders_by_depth: count_by_depth(&physics.collider_paths, slots),
    };
    *snapshot = LodSnapshot {
        nodes,
        physics_collider_paths: physics.collider_paths.duplicate(),
        counters,
    };
}

impl<O> LodSnapshot<O> {
    /// An empty snapshot.
    pub fn new() -> (snapshot: Self)
        ensures
            snapshot.nodes@.len() == 0,
            snapshot.physics_collider_paths@ == Set::<Path>::empty(),
            snapshot.counters.render_loaded == 0,
            snapshot.counters.render_loading == 0,
            snapshot.counters.physics_colliders == 0,
            snapshot.counters.bulks_cached == 0,
            snapshot.counters.bulks_loading == 0,
            snapshot.counters.bulks_failed == 0,
            snapshot.counters.render_loaded_by_depth@.len() == 0,
            snapshot.counters.render_loading_by_depth@.len() == 0,
            snapshot.counters.physics_loaded_by_depth@.len() == 0,
            snapshot.counters.physics_loading_by_depth@.len() == 0,
            snapshot.counters.physics_colliders_by_depth@.len() == 0,
    {
        LodSnapshot {
            nodes: Vec::new(),
            physics_collider_paths: PathSet::new(),
            counters: SnapshotCounters {
                render_loaded: 0,
                render_loading: 0,
                physics_colliders: 0,
                bulks_cached: 0,
                bulks_loading: 0,
                bulks_failed: 0,
                render_loaded_by_depth: Vec::new(),
                render_loading_by_depth: Vec::new(),
                physics_loaded_by_depth: Vec::new(),
                physics_loading_by_depth: Vec::new(),
                physics_colliders_by_depth: Vec::new(),
            },
        }
    }
}

} // verus!
