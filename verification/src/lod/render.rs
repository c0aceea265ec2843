//! The render walk: which nodes show on screen.

use vstd::prelude::*;
use vstd::string::*;
use crate::path_map::{text_paths, Path, PathSet};
use super::listing::{
    by_level,
    extends,
    lemma_extends_empty,
    lemma_extends_join,
    lemma_extends_nothing,
    lemma_extends_one,
    lists,
    parts_at,
    branches_before,
    level_before,
};
use super::model::{at_boundary, bulk_key, is_octant, octant_char, FrameView, NodeMetadata, Octree};
use super::state::{LodState, Passage};

verus! {

/// What the render walk asks for.
#[verifier::reject_recursive_types(O)]
pub struct BfsResult<O> {
    /// Nodes to load, level by level.
    pub nodes_to_load: Vec<NodeMetadata<O>>,
    /// Bulks to load with their epochs, level by level.
    pub bulks_to_load: Vec<(String, u32)>,
    /// Every node that may show.
    pub potential_nodes: PathSet,
    /// Every bulk that the walk needs.
    pub potential_bulks: PathSet,
    /// The bounding volumes of the nodes that the walk met, level by level.
    pub discovered_obbs: Vec<(String, O)>,
}

/// The paths of a run of nodes.
pub open spec fn node_paths<O>(nodes: Seq<NodeMetadata<O>>) -> Seq<Path> {
    nodes.map_values(|n: NodeMetadata<O>| n.path@)
}

/// The paths of a run of pairs.
pub open spec fn pair_paths<T>(pairs: Seq<(String, T)>) -> Seq<Path> {
    pairs.map_values(|e: (String, T)| e.0@)
}

impl<O> Octree<O> {
    /// Whether the render walk goes below `p`: every node down to `p` is kept and too coarse.
    pub open spec fn reached(self, p: Path) -> bool
        decreases p.len(),
    {
        p.len() == 0 || {
            &&& self.reached(p.drop_last())
            &&& self.slot(p) is Some
            &&& self.kept(p)
            &&& self.verdict(p).refine
        }
    }

    /// The paths that the render walk goes below.
    pub open spec fn reached_set(self) -> Set<Path> {
        Set::new(|p: Path| self.reached(p))
    }

    /// The nodes that the render walk meets and keeps.
    pub open spec fn discovered_set(self) -> Set<Path> {
        Set::new(
            |p: Path|
                p.len() > 0 && self.reached(p.drop_last()) && self.slot(p) is Some && self.kept(p),
        )
    }

    /// The nodes that may show: those that the walk goes below and that have data.
    pub open spec fn visible_set(self) -> Set<Path> {
        Set::new(|p: Path| p.len() > 0 && self.reached(p) && self.node(p).has_data)
    }

    /// The bulks that the render walk needs: the root bulk, and every child bulk below a path
    /// that the walk reaches.
    pub open spec fn render_bulks(self) -> Set<Path> {
        Set::new(
            |p: Path|
                self.reached(p) && (self.declared(p) || (p.len() == 0 && self.bulks.contains_key(p))),
        )
    }
}

impl<O, D> LodState<O, D> {
    /// The nodes that are neither loaded nor on their way.
    pub open spec fn absent_nodes(&self) -> Set<Path> {
        Set::new(|p: Path| self.node_absent(p))
    }

    /// The bulks below `walked` paths that have to be asked for.
    pub open spec fn missing_bulks(&self, view: &FrameView, walked: Set<Path>) -> Set<Path> {
        Set::new(
            |p: Path|
                walked.contains(p) && self.octree(view).declared(p) && self.bulk_absent(p),
        )
    }

    /// Whether `r` is what the render walk finds.
    pub open spec fn render_finds(&self, view: &FrameView, r: &BfsResult<O>) -> bool {
        let tree = self.octree(view);
        &&& r.potential_nodes@ == tree.visible_set()
        &&& r.potential_bulks@ == tree.render_bulks()
        &&& lists(
            node_paths(r.nodes_to_load@),
            tree.visible_set().intersect(self.absent_nodes()),
            by_level(),
        )
        &&& nodes_right(tree, r.nodes_to_load@)
        &&& lists(
            pair_paths(r.bulks_to_load@),
            self.missing_bulks(view, tree.reached_set()),
            by_level(),
        )
        &&& epochs_right(tree, r.bulks_to_load@)
        &&& lists(pair_paths(r.discovered_obbs@), tree.discovered_set(), by_level())
        &&& obbs_right(tree, r.discovered_obbs@)
    }
}

/// Whether each node is the one that the octree has under its path.
pub open spec fn nodes_right<O>(tree: Octree<O>, nodes: Seq<NodeMetadata<O>>) -> bool {
    forall|i: int| 0 <= i < nodes.len() ==> #[trigger] nodes[i] == tree.node(nodes[i].path@)
}

/// Whether each bulk comes with the epoch that its parent bulk gives.
pub open spec fn epochs_right<O>(tree: Octree<O>, bulks: Seq<(String, u32)>) -> bool {
    forall|i: int| 0 <= i < bulks.len() ==> (#[trigger] bulks[i]).1 == tree.child_epoch(bulks[i].0@)
}

/// Whether each volume is that of the node under its path.
pub open spec fn obbs_right<O>(tree: Octree<O>, obbs: Seq<(String, O)>) -> bool {
    forall|i: int| 0 <= i < obbs.len() ==> (#[trigger] obbs[i]).1 == tree.node(obbs[i].0@).obb
}

/// The children of `p` in the octants below `octant`.
spec fn children(p: Path, octant: int) -> Set<Path> {
    Set::new(
        |q: Path|
            q.len() == p.len() + 1 && q.drop_last() == p && is_octant(q.last()) && q.last()
                < octant_char(octant),
    )
}

/// The children of all of `parents`.
spec fn broods(parents: Seq<Path>) -> Set<Path> {
    Set::new(|q: Path| q.len() > 0 && parents.contains(q.drop_last()) && is_octant(q.last()))
}

/// The members of `paths`.
spec fn members(paths: Seq<Path>) -> Set<Path> {
    Set::new(|q: Path| paths.contains(q))
}

/// The paths of length `n`.
spec fn level(n: nat) -> Set<Path> {
    Set::new(|q: Path| q.len() == n)
}

/// The paths shorter than `n`.
spec fn shorter(n: nat) -> Set<Path> {
    Set::new(|q: Path| q.len() < n)
}

/// The length of the longest of `keys`.
pub open spec fn longest(keys: Seq<Path>) -> nat
    decreases keys.len(),
{
    if keys.len() == 0 {
        0
    } else {
        let rest = longest(keys.drop_last());
        if keys.last().len() > rest {
            keys.last().len()
        } else {
            rest
        }
    }
}

pub proof fn lemma_longest(keys: Seq<Path>, k: Path)
    requires
        keys.contains(k),
    ensures
        k.len() <= longest(keys),
    decreases keys.len(),
{
    let i = keys.index_of(k);
    if i < keys.len() - 1 {
        assert(keys.drop_last()[i] == k);
        lemma_longest(keys.drop_last(), k);
    }
}

proof fn lemma_siblings(p: Path, a: Path, b: Path)
    requires
        a.len() == p.len() + 1,
        b.len() == p.len() + 1,
        a.drop_last() == p,
        b.drop_last() == p,
        a.last() < b.last(),
    ensures
        branches_before(a, b),
{
    let k = p.len() as int;
    assert(a.take(k) =~= a.drop_last());
    assert(b.take(k) =~= b.drop_last());
    assert(parts_at(a, b, k));
}

proof fn lemma_cousins(a: Path, b: Path)
    requires
        a.len() == b.len(),
        a.len() > 0,
        level_before(a.drop_last(), b.drop_last()),
    ensures
        level_before(a, b),
{
    let x = a.drop_last();
    let y = b.drop_last();
    let k = choose|k: int| parts_at(x, y, k);
    assert(a.take(k) =~= x.take(k));
    assert(b.take(k) =~= y.take(k));
    assert(parts_at(a, b, k));
}

/// One more octant: the child joins the list exactly if it belongs.
proof fn lemma_next_octant(
    base: Seq<Path>,
    before: Seq<Path>,
    after: Seq<Path>,
    p: Path,
    octant: int,
    wanted: Set<Path>,
)
    requires
        0 <= octant < 8,
        extends(base, before, children(p, octant).intersect(wanted), by_level()),
        after == if wanted.contains(p.push(octant_char(octant))) {
            before.push(p.push(octant_char(octant)))
        } else {
            before
        },
    ensures
        extends(base, after, children(p, octant + 1).intersect(wanted), by_level()),
{
    let c = p.push(octant_char(octant));
    let first = children(p, octant).intersect(wanted);
    assert(c.drop_last() =~= p);
    let second = if wanted.contains(c) {
        set![c]
    } else {
        Set::<Path>::empty()
    };
    if wanted.contains(c) {
        lemma_extends_one(before, c, by_level());
    } else {
        lemma_extends_nothing(before, by_level());
    }
    assert forall|x: Path, y: Path| #[trigger]
        first.contains(x) && #[trigger] second.contains(y) implies by_level()(x, y) by {
        lemma_siblings(p, x, y);
    }
    lemma_extends_join(base, before, after, first, second, by_level());
    assert(children(p, octant + 1).intersect(wanted) =~= first.union(second)) by {
        assert forall|q: Path|
            q.len() == p.len() + 1 && q.drop_last() == p && q.last() == octant_char(
                octant,
            ) implies q == c by {
            assert(q =~= q.drop_last().push(q.last()));
        }
    }
}

/// One more parent: its children follow those of the parents before it.
proof fn lemma_next_parent(
    base: Seq<Path>,
    before: Seq<Path>,
    after: Seq<Path>,
    parents: Seq<Path>,
    i: int,
    wanted: Set<Path>,
)
    requires
        0 <= i < parents.len(),
        forall|j: int| 0 <= j < parents.len() ==> (#[trigger] parents[j]).len() == parents[i].len(),
        super::listing::ordered(parents, by_level()),
        extends(base, before, broods(parents.take(i)).intersect(wanted), by_level()),
        extends(before, after, children(parents[i], 8).intersect(wanted), by_level()),
    ensures
        extends(base, after, broods(parents.take(i + 1)).intersect(wanted), by_level()),
{
    let first = broods(parents.take(i)).intersect(wanted);
    let second = children(parents[i], 8).intersect(wanted);
    assert forall|x: Path, y: Path| #[trigger]
        first.contains(x) && #[trigger] second.contains(y) implies by_level()(x, y) by {
        let j = parents.take(i).index_of(x.drop_last());
        assert(parents[j] == x.drop_last());
        assert(by_level()(parents[j], parents[i]));
        lemma_cousins(x, y);
    }
    lemma_extends_join(base, before, after, first, second, by_level());
    lemma_one_more(parents, i);
    assert(broods(parents.take(i + 1)).intersect(wanted) =~= first.union(second));
}

proof fn lemma_reached_prefix<O>(tree: Octree<O>, p: Path, k: int)
    requires
        tree.reached(p),
        0 <= k <= p.len(),
    ensures
        tree.reached(p.take(k)),
    decreases p.len(),
{
    if k < p.len() {
        lemma_reached_prefix(tree, p.drop_last(), k);
        assert(p.drop_last().take(k) =~= p.take(k));
    } else {
        assert(p.take(k) =~= p);
    }
}

/// Below a path that the walk enters, the bulk in use is one that the walk needs.
proof fn lemma_bulk_in_use<O>(tree: Octree<O>, p: Path)
    requires
        tree.reached(p),
        tree.entered(p),
    ensures
        tree.render_bulks().contains(bulk_key(p)),
{
    let b = bulk_key(p);
    let k = p.len() - p.len() % 4;
    lemma_reached_prefix(tree, p, k);
    if b.len() > 0 && b.len() < p.len() {
        lemma_reached_prefix(tree, p, k + 1);
        let c = p.take(k + 1);
        assert(c.drop_last() =~= b);
        assert(tree.slot(c) is Some);
        assert(tree.entered(b));
    } else if b.len() == p.len() {
        assert(b =~= p);
    }
}

impl<O> BfsResult<O> {
    /// An empty result.
    pub fn new() -> (result: Self)
        ensures
            result.nodes_to_load@.len() == 0,
            result.bulks_to_load@.len() == 0,
            result.potential_nodes@ == Set::<Path>::empty(),
            result.potential_bulks@ == Set::<Path>::empty(),
            result.discovered_obbs@.len() == 0,
    {
        BfsResult {
            nodes_to_load: Vec::new(),
            bulks_to_load: Vec::new(),
            potential_nodes: PathSet::new(),
            potential_bulks: PathSet::new(),
            discovered_obbs: Vec::new(),
        }
    }

    /// Empties the result for the next walk, keeping its buffers.
    pub fn clear(&mut self)
        ensures
            final(self).nodes_to_load@.len() == 0,
            final(self).bulks_to_load@.len() == 0,
            final(self).potential_nodes@ == Set::<Path>::empty(),
            final(self).potential_bulks@ == Set::<Path>::empty(),
            final(self).discovered_obbs@.len() == 0,
    {
        self.nodes_to_load.clear();
        self.bulks_to_load.clear();
        self.potential_nodes.clear();
        self.potential_bulks.clear();
        self.discovered_obbs.clear();
    }
}

/// Looks at the eight children of `path`.
fn expand<O: Copy, D>(
    state: &LodState<O, D>,
    view: &FrameView,
    path: &str,
    next: &mut Vec<String>,
    result: &mut BfsResult<O>,
)
    requires
        state.wf(),
        state.octree(view).reached(path@),
        state.octree(view).entered(path@),
        nodes_right(state.octree(view), old(result).nodes_to_load@),
        obbs_right(state.octree(view), old(result).discovered_obbs@),
    ensures
        ({
            let tree = state.octree(view);
            let brood = children(path@, 8);
            &&& extends(
                text_paths(old(next)@),
                text_paths(final(next)@),
                brood.intersect(tree.reached_set()),
                by_level(),
            )
            &&& extends(
                node_paths(old(result).nodes_to_load@),
                node_paths(final(result).nodes_to_load@),
                brood.intersect(tree.visible_set().intersect(state.absent_nodes())),
                by_level(),
            )
            &&& extends(
                pair_paths(old(result).discovered_obbs@),
                pair_paths(final(result).discovered_obbs@),
                brood.intersect(tree.discovered_set()),
                by_level(),
            )
            &&& nodes_right(tree, final(result).nodes_to_load@)
            &&& obbs_right(tree, final(result).discovered_obbs@)
            &&& final(result).potential_nodes@ == old(result).potential_nodes@.union(
                brood.intersect(tree.visible_set()),
            )
            &&& final(result).potential_bulks == old(result).potential_bulks
            &&& final(result).bulks_to_load == old(result).bulks_to_load
        }),
{
    let ghost tree = state.octree(view);
    let ghost p = path@;
    let ghost wanted = tree.visible_set().intersect(state.absent_nodes());
    let ghost next0 = text_paths(next@);
    let ghost nodes0 = node_paths(result.nodes_to_load@);
    let ghost obbs0 = pair_paths(result.discovered_obbs@);
    let ghost seen0 = result.potential_nodes@;
    proof {
        lemma_extends_nothing(next0, by_level());
        lemma_extends_nothing(nodes0, by_level());
        lemma_extends_nothing(obbs0, by_level());
        assert(children(p, 0) =~= Set::<Path>::empty());
        assert(children(p, 0).intersect(tree.reached_set()) =~= Set::<Path>::empty());
        assert(children(p, 0).intersect(wanted) =~= Set::<Path>::empty());
        assert(children(p, 0).intersect(tree.discovered_set()) =~= Set::<Path>::empty());
        assert(seen0.union(children(p, 0).intersect(tree.visible_set())) =~= seen0);
    }
    let mut octant: u8 = 0;
    while octant < 8
        invariant
            octant <= 8,
            state.wf(),
            p == path@,
            tree == state.octree(view),
            tree.reached(p),
            tree.entered(p),
            wanted == tree.visible_set().intersect(state.absent_nodes()),
            extends(
                next0,
                text_paths(next@),
                children(p, octant as int).intersect(tree.reached_set()),
                by_level(),
            ),
            extends(
                nodes0,
                node_paths(result.nodes_to_load@),
                children(p, octant as int).intersect(wanted),
                by_level(),
            ),
            extends(
                obbs0,
                pair_paths(result.discovered_obbs@),
                children(p, octant as int).intersect(tree.discovered_set()),
                by_level(),
            ),
            nodes_right(tree, result.nodes_to_load@),
            obbs_right(tree, result.discovered_obbs@),
            result.potential_nodes@ == seen0.union(
                children(p, octant as int).intersect(tree.visible_set()),
            ),
            result.potential_bulks == old(result).potential_bulks,
            result.bulks_to_load == old(result).bulks_to_load,
        decreases 8 - octant,
    {
        let ghost q = p.push(octant_char(octant as int));
        let ghost next1 = text_paths(next@);
        let ghost nodes1 = node_paths(result.nodes_to_load@);
        let ghost obbs1 = pair_paths(result.discovered_obbs@);
        let ghost seen1 = result.potential_nodes@;
        assert(q.drop_last() =~= p);
        match state.find_child(view, path, octant) {
            Some((child, node, verdict)) => {
                if verdict.in_frustum || (view.low_altitude && verdict.nearby) {
                    result.discovered_obbs.push((node.path.clone(), node.obb));
                    assert(pair_paths(result.discovered_obbs@) =~= obbs1.push(q));
                    if verdict.refine {
                        if node.has_data {
                            result.potential_nodes.insert(node.path.clone());
                            if !state.loaded_nodes.contains(node.path.as_str())
                                && !state.loading_nodes.contains(node.path.as_str()) {
                                result.nodes_to_load.push(node.duplicate());
                                assert(node_paths(result.nodes_to_load@) =~= nodes1.push(q));
                            }
                        }
                        next.push(child);
                        assert(text_paths(next@) =~= next1.push(q));
                    }
                }
            },
            None => {},
        }
        proof {
            lemma_next_octant(
                next0,
                next1,
                text_paths(next@),
                p,
                octant as int,
                tree.reached_set(),
            );
            lemma_next_octant(
                nodes0,
                nodes1,
                node_paths(result.nodes_to_load@),
                p,
                octant as int,
                wanted,
            );
            lemma_next_octant(
                obbs0,
                obbs1,
                pair_paths(result.discovered_obbs@),
                p,
                octant as int,
                tree.discovered_set(),
            );
            assert(result.potential_nodes@ =~= seen0.union(
                children(p, octant + 1).intersect(tree.visible_set()),
            )) by {
                assert forall|x: Path| #[trigger]
                    children(p, octant + 1).contains(x) <==> children(p, octant as int).contains(x)
                        || x == q by {
                    if x.len() == p.len() + 1 && x.drop_last() == p && x.last() == octant_char(
                        octant as int,
                    ) {
                        assert(x =~= x.drop_last().push(x.last()));
                    }
                }
            }
        }
        octant = octant + 1;
    }
}

proof fn lemma_one_more(parents: Seq<Path>, i: int)
    requires
        0 <= i < parents.len(),
    ensures
        members(parents.take(i + 1)) == members(parents.take(i)).insert(parents[i]),
        broods(parents.take(i + 1)) == broods(parents.take(i)).union(children(parents[i], 8)),
{
    assert forall|q: Path| #[trigger]
        parents.take(i + 1).contains(q) <==> parents.take(i).contains(q) || q == parents[i] by {
        if parents.take(i + 1).contains(q) {
            let j = parents.take(i + 1).index_of(q);
            if j < i {
                assert(parents.take(i)[j] == q);
            }
        }
        if parents.take(i).contains(q) {
            assert(parents.take(i + 1)[parents.take(i).index_of(q)] == q);
        }
        if q == parents[i] {
            assert(parents.take(i + 1)[i] == q);
        }
    }
    assert(members(parents.take(i + 1)) =~= members(parents.take(i)).insert(parents[i]));
    assert(broods(parents.take(i + 1)) =~= broods(parents.take(i)).union(children(parents[i], 8)));
}

/// With the last of a level, the list is complete up to that level.
proof fn lemma_level_done(
    base: Seq<Path>,
    after: Seq<Path>,
    wanted: Set<Path>,
    region: Set<Path>,
    n: nat,
)
    requires
        lists(base, wanted.intersect(shorter(n)), by_level()),
        extends(base, after, region.intersect(wanted), by_level()),
        forall|q: Path| wanted.contains(q) && q.len() == n ==> region.contains(q),
        forall|q: Path| #[trigger] region.contains(q) ==> q.len() == n,
    ensures
        lists(after, wanted.intersect(shorter(n + 1)), by_level()),
{
    let none = Seq::<Path>::empty();
    let first = wanted.intersect(shorter(n));
    let second = region.intersect(wanted);
    lemma_extends_empty(base, first, by_level());
    lemma_extends_join(none, base, after, first, second, by_level());
    assert(wanted.intersect(shorter(n + 1)) =~= first.union(second));
    lemma_extends_empty(after, first.union(second), by_level());
}

/// Goes below `path`: asks for the bulk that begins there, or looks at the children.
fn visit<O: Copy, D>(
    state: &LodState<O, D>,
    view: &FrameView,
    path: &String,
    next: &mut Vec<String>,
    result: &mut BfsResult<O>,
)
    requires
        state.wf(),
        state.octree(view).reached(path@),
        nodes_right(state.octree(view), old(result).nodes_to_load@),
        epochs_right(state.octree(view), old(result).bulks_to_load@),
        obbs_right(state.octree(view), old(result).discovered_obbs@),
        state.octree(view).render_bulks().intersect(shorter(path@.len())).subset_of(
            old(result).potential_bulks@,
        ),
    ensures
        ({
            let tree = state.octree(view);
            let brood = children(path@, 8);
            &&& extends(
                text_paths(old(next)@),
                text_paths(final(next)@),
                brood.intersect(tree.reached_set()),
                by_level(),
            )
            &&& extends(
                node_paths(old(result).nodes_to_load@),
                node_paths(final(result).nodes_to_load@),
                brood.intersect(tree.visible_set().intersect(state.absent_nodes())),
                by_level(),
            )
            &&& extends(
                pair_paths(old(result).discovered_obbs@),
                pair_paths(final(result).discovered_obbs@),
                brood.intersect(tree.discovered_set()),
                by_level(),
            )
            &&& extends(
                pair_paths(old(result).bulks_to_load@),
                pair_paths(final(result).bulks_to_load@),
                set![path@].intersect(state.missing_bulks(view, tree.reached_set())),
                by_level(),
            )
            &&& nodes_right(tree, final(result).nodes_to_load@)
            &&& epochs_right(tree, final(result).bulks_to_load@)
            &&& obbs_right(tree, final(result).discovered_obbs@)
            &&& final(result).potential_nodes@ == old(result).potential_nodes@.union(
                brood.intersect(tree.visible_set()),
            )
            &&& final(result).potential_bulks@ == old(result).potential_bulks@.union(
                set![path@].intersect(tree.render_bulks()),
            )
        }),
{
    let ghost tree = state.octree(view);
    let ghost p = path@;
    let ghost missing = set![p].intersect(state.missing_bulks(view, tree.reached_set()));
    let ghost bulks0 = pair_paths(result.bulks_to_load@);
    let ghost needed0 = result.potential_bulks@;
    let found = state.find_passage(view, path.as_str());
    proof {
        lemma_extends_nothing(bulks0, by_level());
        assert(at_boundary(p) ==> bulk_key(p) =~= p);
        if !tree.entered(p) {
            let brood = children(p, 8);
            lemma_extends_nothing(text_paths(next@), by_level());
            lemma_extends_nothing(node_paths(result.nodes_to_load@), by_level());
            lemma_extends_nothing(pair_paths(result.discovered_obbs@), by_level());
            assert(brood.intersect(tree.reached_set()) =~= Set::<Path>::empty());
            assert(brood.intersect(tree.visible_set()) =~= Set::<Path>::empty());
            assert(brood.intersect(tree.visible_set().intersect(state.absent_nodes())) =~= Set::<
                Path,
            >::empty());
            assert(brood.intersect(tree.discovered_set()) =~= Set::<Path>::empty());
            assert(result.potential_nodes@ =~= result.potential_nodes@.union(Set::<Path>::empty()));
        }
    }
    match found {
        Passage::Shut => {
            assert(p.len() == 0 ==> p =~= bulk_key(p));
            assert(missing =~= Set::<Path>::empty());
            assert(result.potential_bulks@ =~= needed0.union(
                set![p].intersect(tree.render_bulks()),
            ));
        },
        Passage::Missing(epoch) => {
            result.potential_bulks.insert(path.clone());
            assert(result.potential_bulks@ =~= needed0.union(
                set![p].intersect(tree.render_bulks()),
            ));
            if !state.loading_bulks.contains(path.as_str()) && !state.failed_bulks.contains(
                path.as_str(),
            ) {
                result.bulks_to_load.push((path.clone(), epoch));
                proof {
                    assert(pair_paths(result.bulks_to_load@) =~= bulks0.push(p));
                    lemma_extends_one(bulks0, p, by_level());
                    assert(missing =~= set![p]);
                }
            } else {
                assert(missing =~= Set::<Path>::empty());
            }
        },
        Passage::Open => {
            let n: usize = path.as_str().unicode_len();
            let key = path.as_str().substring_char(0, n - n % 4);
            proof {
                assert(key@ =~= bulk_key(p));
                lemma_bulk_in_use(tree, p);
                assert(n % 4 == 0 ==> key@ =~= p);
                assert(missing =~= Set::<Path>::empty());
            }
            result.potential_bulks.insert(key.to_owned());
            assert(result.potential_bulks@ =~= needed0.union(
                set![p].intersect(tree.render_bulks()),
            ));
            expand(state, view, path.as_str(), next, result);
        },
    }
}

/// Walks the octree level by level to find what the current view needs.
///
/// The walk goes below a node while it is in view, or near at low altitude, and too coarse
/// for its distance. Where the bulk below it is not cached, that bulk is asked for.
pub fn bfs_traversal<O: Copy, D>(
    state: &LodState<O, D>,
    view: &FrameView,
    result: &mut BfsResult<O>,
)
    requires
        state.wf(),
    ensures
        state.render_finds(view, final(result)),
{
    result.clear();
    let mut frontier: Vec<String> = Vec::new();
    frontier.push(String::new());
    let _cached: usize = state.bulks.len();
    let ghost tree = state.octree(view);
    let ghost wanted = tree.visible_set().intersect(state.absent_nodes());
    let ghost missing = state.missing_bulks(view, tree.reached_set());
    let ghost bound = longest(state.bulks.keys());
    let ghost mut depth: nat = 0;
    proof {
        let root = Seq::<char>::empty();
        let none = Seq::<Path>::empty();
        assert(text_paths(frontier@) =~= seq![root]);
        assert(text_paths(frontier@)[0] == root);
        assert forall|q: Path| q.len() == 0 implies q == root by {
            assert(q =~= root);
        }
        assert(node_paths(result.nodes_to_load@) =~= none);
        assert(pair_paths(result.discovered_obbs@) =~= none);
        assert(pair_paths(result.bulks_to_load@) =~= none);
        assert(tree.visible_set().intersect(shorter(1)) =~= Set::<Path>::empty());
        assert(tree.render_bulks().intersect(shorter(0)) =~= Set::<Path>::empty());
    }
    while frontier.len() > 0
        invariant
            state.wf(),
            state.bulks.listed(),
            tree == state.octree(view),
            wanted == tree.visible_set().intersect(state.absent_nodes()),
            missing == state.missing_bulks(view, tree.reached_set()),
            bound == longest(state.bulks.keys()),
            depth <= bound + 5,
            frontier@.len() > 0 ==> depth <= bound + 4,
            lists(text_paths(frontier@), tree.reached_set().intersect(level(depth)), by_level()),
            lists(
                node_paths(result.nodes_to_load@),
                wanted.intersect(shorter(depth + 1)),
                by_level(),
            ),
            lists(
                pair_paths(result.discovered_obbs@),
                tree.discovered_set().intersect(shorter(depth + 1)),
                by_level(),
            ),
            lists(
                pair_paths(result.bulks_to_load@),
                missing.intersect(shorter(depth)),
                by_level(),
            ),
            nodes_right(tree, result.nodes_to_load@),
            epochs_right(tree, result.bulks_to_load@),
            obbs_right(tree, result.discovered_obbs@),
            result.potential_nodes@ == tree.visible_set().intersect(shorter(depth + 1)),
            result.potential_bulks@ == tree.render_bulks().intersect(shorter(depth)),
        decreases bound + 5 - depth,
    {
        let mut next: Vec<String> = Vec::new();
        let mut i: usize = 0;
        let ghost parents = text_paths(frontier@);
        let ghost next0 = Seq::<Path>::empty();
        let ghost nodes0 = node_paths(result.nodes_to_load@);
        let ghost obbs0 = pair_paths(result.discovered_obbs@);
        let ghost bulks0 = pair_paths(result.bulks_to_load@);
        let ghost seen0 = result.potential_nodes@;
        let ghost needed0 = result.potential_bulks@;
        proof {
            assert(text_paths(next@) =~= next0);
            lemma_extends_nothing(next0, by_level());
            lemma_extends_nothing(nodes0, by_level());
            lemma_extends_nothing(obbs0, by_level());
            lemma_extends_nothing(bulks0, by_level());
            assert(broods(parents.take(0)) =~= Set::<Path>::empty());
            assert(members(parents.take(0)) =~= Set::<Path>::empty());
            assert(broods(parents.take(0)).intersect(tree.reached_set()) =~= Set::<Path>::empty());
            assert(broods(parents.take(0)).intersect(wanted) =~= Set::<Path>::empty());
            assert(broods(parents.take(0)).intersect(tree.discovered_set()) =~= Set::<Path>::empty());
            assert(members(parents.take(0)).intersect(missing) =~= Set::<Path>::empty());
            assert(seen0.union(broods(parents.take(0)).intersect(tree.visible_set())) =~= seen0);
            assert(needed0.union(members(parents.take(0)).intersect(tree.render_bulks()))
                =~= needed0);
            assert forall|j: int| 0 <= j < parents.len() implies (#[trigger] parents[j]).len()
                == depth && tree.reached(parents[j]) by {
                assert(parents.contains(parents[j]));
            }
        }
        while i < frontier.len()
            invariant
                i <= frontier@.len(),
                state.wf(),
                tree == state.octree(view),
                wanted == tree.visible_set().intersect(state.absent_nodes()),
                missing == state.missing_bulks(view, tree.reached_set()),
                parents == text_paths(frontier@),
                super::listing::ordered(parents, by_level()),
                forall|j: int|
                    0 <= j < parents.len() ==> (#[trigger] parents[j]).len() == depth
                        && tree.reached(parents[j]),
                tree.render_bulks().intersect(shorter(depth)).subset_of(needed0),
                extends(
                    next0,
                    text_paths(next@),
                    broods(parents.take(i as int)).intersect(tree.reached_set()),
                    by_level(),
                ),
                extends(
                    nodes0,
                    node_paths(result.nodes_to_load@),
                    broods(parents.take(i as int)).intersect(wanted),
                    by_level(),
                ),
                extends(
                    obbs0,
                    pair_paths(result.discovered_obbs@),
                    broods(parents.take(i as int)).intersect(tree.discovered_set()),
                    by_level(),
                ),
                extends(
                    bulks0,
                    pair_paths(result.bulks_to_load@),
                    members(parents.take(i as int)).intersect(missing),
                    by_level(),
                ),
                nodes_right(tree, result.nodes_to_load@),
                epochs_right(tree, result.bulks_to_load@),
                obbs_right(tree, result.discovered_obbs@),
                result.potential_nodes@ == seen0.union(
                    broods(parents.take(i as int)).intersect(tree.visible_set()),
                ),
                result.potential_bulks@ == needed0.union(
                    members(parents.take(i as int)).intersect(tree.render_bulks()),
                ),
            decreases frontier@.len() - i,
        {
            let ghost next1 = text_paths(next@);
            let ghost nodes1 = node_paths(result.nodes_to_load@);
            let ghost obbs1 = pair_paths(result.discovered_obbs@);
            let ghost bulks1 = pair_paths(result.bulks_to_load@);
            let ghost seen1 = result.potential_nodes@;
            let ghost p = parents[i as int];
            assert(frontier@[i as int]@ == p);
            visit(state, view, &frontier[i], &mut next, result);
            proof {
                let n = i as int;
                lemma_next_parent(next0, next1, text_paths(next@), parents, n, tree.reached_set());
                lemma_next_parent(
                    nodes0,
                    nodes1,
                    node_paths(result.nodes_to_load@),
                    parents,
                    n,
                    wanted,
                );
                lemma_next_parent(
                    obbs0,
                    obbs1,
                    pair_paths(result.discovered_obbs@),
                    parents,
                    n,
                    tree.discovered_set(),
                );
                lemma_one_more(parents, n);
                let first = members(parents.take(n)).intersect(missing);
                let second = set![p].intersect(missing);
                assert forall|x: Path, y: Path| #[trigger]
                    first.contains(x) && #[trigger] second.contains(y) implies by_level()(x, y) by {
                    let j = parents.take(n).index_of(x);
                    assert(parents[j] == x);
                }
                lemma_extends_join(
                    bulks0,
                    bulks1,
                    pair_paths(result.bulks_to_load@),
                    first,
                    second,
                    by_level(),
                );
                assert(members(parents.take(n + 1)).intersect(missing) =~= first.union(second));
                assert(result.potential_nodes@ =~= seen0.union(
                    broods(parents.take(n + 1)).intersect(tree.visible_set()),
                ));
                assert(result.potential_bulks@ =~= needed0.union(
                    members(parents.take(n + 1)).intersect(tree.render_bulks()),
                ));
            }
            i = i + 1;
        }
        proof {
            assert(parents.take(parents.len() as int) =~= parents);
            assert forall|q: Path|
                tree.discovered_set().contains(q) && q.len() == depth + 1 implies broods(
                parents,
            ).contains(q) by {
                assert(tree.reached_set().intersect(level(depth)).contains(q.drop_last()));
            }
            assert forall|q: Path| broods(parents).contains(q) implies q.len() == depth + 1 by {
                let j = parents.index_of(q.drop_last());
                assert(parents[j].len() == depth);
            }
            assert forall|q: Path| members(parents).contains(q) <==> tree.reached(q) && q.len()
                == depth by {
                assert(parents.contains(q) <==> tree.reached_set().intersect(level(depth)).contains(q));
            }
            assert(broods(parents).intersect(tree.reached_set()) =~= tree.reached_set().intersect(
                level(depth + 1),
            ));
            lemma_extends_empty(
                text_paths(next@),
                tree.reached_set().intersect(level(depth + 1)),
                by_level(),
            );
            lemma_level_done(
                nodes0,
                node_paths(result.nodes_to_load@),
                wanted,
                broods(parents),
                depth + 1,
            );
            lemma_level_done(
                obbs0,
                pair_paths(result.discovered_obbs@),
                tree.discovered_set(),
                broods(parents),
                depth + 1,
            );
            lemma_level_done(
                bulks0,
                pair_paths(result.bulks_to_load@),
                missing,
                members(parents),
                depth,
            );
            assert(result.potential_nodes@ =~= tree.visible_set().intersect(shorter(depth + 2)));
            assert(result.potential_bulks@ =~= tree.render_bulks().intersect(shorter(depth + 1)));
            if next@.len() > 0 {
                let q = text_paths(next@)[0];
                assert(text_paths(next@).contains(q));
                assert(tree.reached(q) && q.len() == depth + 1);
                assert(tree.slot(q) is Some);
                assert(state.bulks@.contains_key(bulk_key(q.drop_last())));
                assert(state.bulks.keys().to_set().contains(bulk_key(q.drop_last())));
                lemma_longest(state.bulks.keys(), bulk_key(q.drop_last()));
            }
        }
        frontier = next;
        proof {
            depth = depth + 1;
        }
    }
    proof {
        assert forall|q: Path| tree.reached(q) implies q.len() < depth by {
            if q.len() >= depth {
                lemma_reached_prefix(tree, q, depth as int);
                assert(text_paths(frontier@).contains(q.take(depth as int)));
            }
        }
        assert(wanted.intersect(shorter(depth + 1)) =~= wanted);
        assert(tree.discovered_set().intersect(shorter(depth + 1)) =~= tree.discovered_set());
        assert(missing.intersect(shorter(depth)) =~= missing);
        assert(result.potential_nodes@ =~= tree.visible_set());
        assert(result.potential_bulks@ =~= tree.render_bulks());
    }
}

} // verus!
