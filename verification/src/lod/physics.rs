//! The physics walk: which nodes carry terrain colliders.

use vstd::prelude::*;
use vstd::string::*;
use crate::path_map::{lemma_take_next, Path, PathSet};
use super::listing::{
    above,
    by_branch,
    extends,
    lemma_extends_empty,
    lemma_extends_join,
    lemma_extends_nothing,
    lemma_extends_one,
    lists,
    parts_at,
};
use super::model::{at_boundary, bulk_key, is_octant, octant_char, FrameView, NodeMetadata, Octree};
use super::render::{
    epochs_right,
    lemma_longest,
    longest,
    node_paths,
    nodes_right,
    obbs_right,
    pair_paths,
};
use super::state::{LodState, Passage};

verus! {

/// What the physics walk asks for.
#[verifier::reject_recursive_types(O)]
pub struct PhysicsBfsResult<O> {
    /// The nodes that should carry a terrain collider.
    pub collider_paths: PathSet,
    /// Nodes to load, branch by branch.
    pub nodes_to_load: Vec<NodeMetadata<O>>,
    /// Bulks to load with their epochs, branch by branch.
    pub bulks_to_load: Vec<(String, u32)>,
    /// Every node that the walk needs.
    pub potential_nodes: PathSet,
    /// Every bulk that the walk needs.
    pub potential_bulks: PathSet,
    /// The bounding volumes of the nodes that the walk met, branch by branch.
    pub discovered_obbs: Vec<(String, O)>,
}

impl<O> Octree<O> {
    /// Whether a walk that starts below `start` goes below `p`: every node from `start` down to
    /// `p` is in range and above the depth wanted there.
    pub open spec fn descends_from(self, start: Path, p: Path) -> bool
        decreases p.len(),
    {
        if p.len() <= start.len() {
            p == start
        } else {
            &&& self.descends_from(start, p.drop_last())
            &&& self.slot(p) is Some
            &&& self.verdict(p).physics_depth is Some
            &&& p.len() < self.verdict(p).physics_depth->0
        }
    }

    /// Whether a walk that starts below `start` meets the node at `p` in range.
    pub open spec fn touched_from(self, start: Path, p: Path) -> bool {
        &&& p.len() > start.len()
        &&& self.descends_from(start, p.drop_last())
        &&& self.slot(p) is Some
        &&& self.verdict(p).physics_depth is Some
    }

    /// Whether such a walk meets some child of `p` in range.
    pub open spec fn has_touched_child(self, start: Path, p: Path) -> bool {
        exists|c: char| self.touched_from(start, #[trigger] p.push(c))
    }

    /// Whether such a walk ends at `p`: the wanted depth is reached, or nothing finer is known.
    pub open spec fn rests_from(self, start: Path, p: Path) -> bool {
        self.touched_from(start, p) && (!self.descends_from(start, p) || !self.has_touched_child(
            start,
            p,
        ))
    }

    /// The deepest node with cached data on the way down from `start` to `p`, or else `best`.
    pub open spec fn anchor_from(
        self,
        start: Path,
        best: Option<Path>,
        data: Set<Path>,
        p: Path,
    ) -> Option<Path>
        decreases p.len(),
    {
        if p.len() <= start.len() {
            best
        } else if self.node(p).has_data && data.contains(p) {
            Some(p)
        } else {
            self.anchor_from(start, best, data, p.drop_last())
        }
    }

    /// The nodes that the ends of such a walk within `region` call for as carriers of colliders.
    pub open spec fn anchors_from(
        self,
        start: Path,
        best: Option<Path>,
        data: Set<Path>,
        region: Set<Path>,
    ) -> Set<Path> {
        Set::new(
            |a: Path|
                exists|p: Path| #[trigger]
                    region.contains(p) && self.rests_from(start, p) && self.anchor_from(
                        start,
                        best,
                        data,
                        p,
                    ) == Some(a),
        )
    }

    /// The paths that a walk from `start` goes below.
    pub open spec fn descends_set_from(self, start: Path) -> Set<Path> {
        Set::new(|p: Path| self.descends_from(start, p))
    }

    /// The nodes that a walk from `start` meets in range.
    pub open spec fn touched_set_from(self, start: Path) -> Set<Path> {
        Set::new(|p: Path| self.touched_from(start, p))
    }

    /// The nodes that a walk from `start` meets in range and that have data.
    pub open spec fn solid_set_from(self, start: Path) -> Set<Path> {
        Set::new(|p: Path| self.touched_from(start, p) && self.node(p).has_data)
    }

    /// The child bulks below paths that a walk from `start` goes below.
    pub open spec fn child_bulks_from(self, start: Path) -> Set<Path> {
        Set::new(|p: Path| self.descends_from(start, p) && self.declared(p))
    }

    /// The bulks that a walk from `start` needs: the one that lists the children of `start`, and
    /// every child bulk below a path that the walk goes below.
    pub open spec fn bulks_from(self, start: Path) -> Set<Path> {
        Set::new(
            |p: Path|
                (self.descends_from(start, p) && self.declared(p)) || (self.entered(start) && p
                    == bulk_key(start)),
        )
    }

    /// Whether the physics walk meets the node at `p` in range.
    pub open spec fn touched(self, p: Path) -> bool {
        self.touched_from(Seq::empty(), p)
    }

    /// Whether the physics walk ends at `p`.
    pub open spec fn rests(self, p: Path) -> bool {
        self.rests_from(Seq::empty(), p)
    }

    /// The deepest node on the way down to `p` that has cached data.
    pub open spec fn anchor(self, data: Set<Path>, p: Path) -> Option<Path> {
        self.anchor_from(Seq::empty(), None, data, p)
    }

    /// The paths that the physics walk goes below.
    pub open spec fn descends_set(self) -> Set<Path> {
        self.descends_set_from(Seq::empty())
    }

    /// The nodes that the physics walk meets in range.
    pub open spec fn touched_set(self) -> Set<Path> {
        self.touched_set_from(Seq::empty())
    }

    /// The nodes that the physics walk meets in range and that have data.
    pub open spec fn solid_set(self) -> Set<Path> {
        self.solid_set_from(Seq::empty())
    }

    /// The bulks that the physics walk needs: the root bulk, and every child bulk below a path
    /// that the walk goes below.
    pub open spec fn physics_bulks(self) -> Set<Path> {
        self.bulks_from(Seq::empty())
    }

    /// The nodes that the ends of the physics walk within `region` call for as carriers of
    /// colliders.
    pub open spec fn anchors(self, data: Set<Path>, region: Set<Path>) -> Set<Path> {
        self.anchors_from(Seq::empty(), None, data, region)
    }

    /// The nodes that carry colliders: those that the ends of the walk call for, without those
    /// that lie below another.
    pub open spec fn hosts(self, data: Set<Path>) -> Set<Path> {
        outermost(self.anchors(data, self.touched_set()))
    }
}

/// `paths` without those that lie below another of them.
pub open spec fn outermost(paths: Set<Path>) -> Set<Path> {
    Set::new(
        |a: Path|
            paths.contains(a) && forall|b: Path| #[trigger] paths.contains(b) ==> !above(b, a),
    )
}

impl<O, D> LodState<O, D> {
    /// Whether `r` is what the physics walk finds.
    pub open spec fn physics_finds(&self, view: &FrameView, r: &PhysicsBfsResult<O>) -> bool {
        let tree = self.octree(view);
        &&& r.collider_paths@ == tree.hosts(self.node_data@.dom())
        &&& r.potential_nodes@ == tree.touched_set()
        &&& r.potential_bulks@ == tree.physics_bulks()
        &&& lists(
            node_paths(r.nodes_to_load@),
            tree.solid_set().intersect(self.absent_nodes()),
            by_branch(),
        )
        &&& nodes_right(tree, r.nodes_to_load@)
        &&& lists(
            pair_paths(r.bulks_to_load@),
            self.missing_bulks(view, tree.descends_set()),
            by_branch(),
        )
        &&& epochs_right(tree, r.bulks_to_load@)
        &&& lists(pair_paths(r.discovered_obbs@), tree.touched_set(), by_branch())
        &&& obbs_right(tree, r.discovered_obbs@)
    }
}

/// What lies below `p`.
spec fn below(p: Path) -> Set<Path> {
    Set::new(|q: Path| above(p, q))
}

/// What lies below `p` in the octants below `octant`.
spec fn early(p: Path, octant: int) -> Set<Path> {
    Set::new(|q: Path| above(p, q) && q[p.len() as int] < octant_char(octant))
}

/// The node at `p` and what lies below it.
spec fn branch(p: Path) -> Set<Path> {
    below(p).insert(p)
}

proof fn lemma_descends_prefix<O>(tree: Octree<O>, start: Path, p: Path, k: int)
    requires
        tree.descends_from(start, p),
        start.len() <= k <= p.len(),
    ensures
        tree.descends_from(start, p.take(k)),
        k > start.len() ==> tree.touched_from(start, p.take(k)),
        p.take(start.len() as int) == start,
    decreases p.len(),
{
    if k < p.len() {
        lemma_descends_prefix(tree, start, p.drop_last(), k);
        assert(p.drop_last().take(k) =~= p.take(k));
        assert(p.drop_last().take(start.len() as int) =~= p.take(start.len() as int));
    } else {
        assert(p.take(k) =~= p);
        if k > start.len() {
            lemma_descends_prefix(tree, start, p.drop_last(), k - 1);
            assert(p.drop_last().take(start.len() as int) =~= p.take(start.len() as int));
        }
    }
}

/// Above a node that the walk meets, the walk goes down and names octants.
pub proof fn lemma_touched_prefix<O>(tree: Octree<O>, start: Path, p: Path, k: int)
    requires
        tree.touched_from(start, p),
        start.len() <= k < p.len(),
    ensures
        tree.descends_from(start, p.take(k)),
        tree.touched_from(start, p.take(k + 1)),
        is_octant(p[k]),
        above(start, p),
{
    lemma_descends_prefix(tree, start, p.drop_last(), k);
    assert(p.drop_last().take(k) =~= p.take(k));
    assert(p.drop_last().take(start.len() as int) =~= p.take(start.len() as int));
    if k + 1 < p.len() {
        lemma_descends_prefix(tree, start, p.drop_last(), k + 1);
        assert(p.drop_last().take(k + 1) =~= p.take(k + 1));
    } else {
        assert(p.take(k + 1) =~= p);
    }
    assert(p.take(k + 1).last() == p[k]);
}

/// Below a path that the walk does not go below, it meets nothing.
proof fn lemma_nothing_below<O>(tree: Octree<O>, start: Path, p: Path)
    requires
        start.len() <= p.len(),
        !tree.descends_from(start, p),
    ensures
        forall|q: Path| #[trigger]
            above(p, q) ==> !tree.touched_from(start, q) && !tree.descends_from(start, q),
{
    assert forall|q: Path| #[trigger] above(p, q) implies !tree.touched_from(start, q)
        && !tree.descends_from(start, q) by {
        if tree.touched_from(start, q) {
            lemma_touched_prefix(tree, start, q, p.len() as int);
        }
        if tree.descends_from(start, q) {
            lemma_descends_prefix(tree, start, q, p.len() as int);
        }
    }
}

/// Whatever a walk meets lies below its start.
proof fn lemma_walk_is_below<O>(tree: Octree<O>, start: Path)
    ensures
        forall|q: Path| #[trigger] tree.touched_from(start, q) ==> above(start, q),
        forall|q: Path| #[trigger]
            tree.descends_from(start, q) ==> q == start || above(start, q),
{
    assert forall|q: Path| #[trigger] tree.touched_from(start, q) implies above(start, q) by {
        lemma_touched_prefix(tree, start, q, start.len() as int);
    }
    assert forall|q: Path| #[trigger] tree.descends_from(start, q) implies q == start || above(
        start,
        q,
    ) by {
        if q.len() > start.len() {
            lemma_descends_prefix(tree, start, q, q.len() as int);
        }
    }
}

/// Whatever a walk meets lies in one of the eight octants below its start.
proof fn lemma_all_octants<O>(tree: Octree<O>, p: Path)
    ensures
        forall|q: Path| #[trigger] tree.touched_from(p, q) ==> early(p, 8).contains(q),
        forall|q: Path| #[trigger]
            tree.descends_from(p, q) ==> q == p || early(p, 8).contains(q),
        early(p, 8).subset_of(below(p)),
{
    lemma_walk_is_below(tree, p);
    assert forall|q: Path| #[trigger] tree.touched_from(p, q) implies early(p, 8).contains(q) by {
        lemma_touched_prefix(tree, p, q, p.len() as int);
    }
    assert forall|q: Path| #[trigger] tree.descends_from(p, q) implies q == p || early(
        p,
        8,
    ).contains(q) by {
        if q != p {
            lemma_descends_prefix(tree, p, q, q.len() as int);
            assert(q.take(q.len() as int) =~= q);
            lemma_touched_prefix(tree, p, q, p.len() as int);
        }
    }
}

/// Below a path that a walk goes below, the walk goes on as one that starts there.
proof fn lemma_descent_continues<O>(tree: Octree<O>, start: Path, q: Path, r: Path)
    requires
        tree.descends_from(start, q),
        r == q || above(q, r),
    ensures
        tree.descends_from(start, r) == tree.descends_from(q, r),
        r != q ==> tree.touched_from(start, r) == tree.touched_from(q, r),
        r != q ==> tree.rests_from(start, r) == tree.rests_from(q, r),
{
    assert(start.len() <= q.len());
    lemma_descends_continue(tree, start, q, r);
    if r != q {
        let t = r.drop_last();
        assert(t.take(q.len() as int) =~= r.take(q.len() as int));
        assert(t.take(t.len() as int) =~= t);
        lemma_descends_continue(tree, start, q, t);
        assert forall|c: char| tree.touched_from(start, #[trigger] r.push(c))
            == tree.touched_from(q, r.push(c)) by {
            assert(r.push(c).drop_last() =~= r);
        }
    }
}

proof fn lemma_descends_continue<O>(tree: Octree<O>, start: Path, q: Path, r: Path)
    requires
        tree.descends_from(start, q),
        start.len() <= q.len(),
        r == q || above(q, r),
    ensures
        tree.descends_from(start, r) == tree.descends_from(q, r),
    decreases r.len(),
{
    if r != q {
        let t = r.drop_last();
        assert(t.take(q.len() as int) =~= r.take(q.len() as int));
        assert(t.take(t.len() as int) =~= t);
        lemma_descends_continue(tree, start, q, t);
    }
}

proof fn lemma_anchor_continues<O>(
    tree: Octree<O>,
    start: Path,
    best: Option<Path>,
    data: Set<Path>,
    q: Path,
    r: Path,
)
    requires
        start.len() <= q.len(),
        r == q || above(q, r),
    ensures
        tree.anchor_from(start, best, data, r) == tree.anchor_from(
            q,
            tree.anchor_from(start, best, data, q),
            data,
            r,
        ),
    decreases r.len(),
{
    if r != q {
        let t = r.drop_last();
        assert(t.take(q.len() as int) =~= r.take(q.len() as int));
        assert(t.take(t.len() as int) =~= t);
        lemma_anchor_continues(tree, start, best, data, q, t);
    }
}

/// What a walk finds below a path that it goes below is what a walk finds that starts there.
proof fn lemma_walk_continues<O>(
    tree: Octree<O>,
    start: Path,
    best: Option<Path>,
    data: Set<Path>,
    q: Path,
)
    requires
        tree.descends_from(start, q),
        start.len() <= q.len(),
    ensures
        tree.touched_set_from(q) == below(q).intersect(tree.touched_set_from(start)),
        tree.solid_set_from(q) == below(q).intersect(tree.solid_set_from(start)),
        tree.descends_set_from(q) == branch(q).intersect(tree.descends_set_from(start)),
        tree.anchors_from(
            q,
            tree.anchor_from(start, best, data, q),
            data,
            tree.touched_set_from(q),
        ) == tree.anchors_from(start, best, data, below(q)),
{
    let next = tree.anchor_from(start, best, data, q);
    lemma_walk_is_below(tree, q);
    assert forall|r: Path| r == q || above(q, r) implies tree.descends_from(start, r)
        == tree.descends_from(q, r) by {
        lemma_descent_continues(tree, start, q, r);
    }
    assert forall|r: Path| #[trigger] above(q, r) implies tree.touched_from(start, r)
        == tree.touched_from(q, r) && tree.rests_from(start, r) == tree.rests_from(q, r)
        && tree.anchor_from(start, best, data, r) == tree.anchor_from(q, next, data, r) by {
        lemma_descent_continues(tree, start, q, r);
        lemma_anchor_continues(tree, start, best, data, q, r);
    }
    assert(tree.touched_set_from(q) =~= below(q).intersect(tree.touched_set_from(start)));
    assert(tree.solid_set_from(q) =~= below(q).intersect(tree.solid_set_from(start)));
    assert(tree.descends_set_from(q) =~= branch(q).intersect(tree.descends_set_from(start)));
    let from_q = tree.anchors_from(q, next, data, tree.touched_set_from(q));
    let from_start = tree.anchors_from(start, best, data, below(q));
    assert forall|a: Path| from_q.contains(a) <==> from_start.contains(a) by {
        if from_q.contains(a) {
            let r = choose|r: Path| #[trigger]
                tree.touched_set_from(q).contains(r) && tree.rests_from(q, r) && tree.anchor_from(
                    q,
                    next,
                    data,
                    r,
                ) == Some(a);
            assert(above(q, r));
            assert(below(q).contains(r));
        }
        if from_start.contains(a) {
            let r = choose|r: Path| #[trigger]
                below(q).contains(r) && tree.rests_from(start, r) && tree.anchor_from(
                    start,
                    best,
                    data,
                    r,
                ) == Some(a);
            assert(above(q, r));
            assert(tree.touched_set_from(q).contains(r));
        }
    }
    assert(from_q =~= from_start);
}

/// The next octant holds its child and what lies below that.
proof fn lemma_octant_parts(p: Path, octant: int)
    requires
        0 <= octant < 8,
    ensures
        ({
            let c = p.push(octant_char(octant));
            early(p, octant + 1) == early(p, octant).union(branch(c))
        }),
{
    let c = p.push(octant_char(octant));
    let k = p.len() as int;
    assert forall|q: Path|
        early(p, octant + 1).contains(q) <==> early(p, octant).union(branch(c)).contains(q) by {
        if above(p, q) && q[k] == octant_char(octant) {
            assert(q.take(k + 1) =~= q.take(k).push(q[k]));
            if q.len() == k + 1 {
                assert(q.take(k + 1) =~= q);
            }
        }
        if above(c, q) {
            assert(q.take(k) =~= q.take(k + 1).take(k));
            assert(c.take(k) =~= p);
            assert(q.take(k + 1)[k] == q[k]);
        }
        if q == c {
            assert(c.take(k) =~= p);
        }
    }
    assert(early(p, octant + 1) =~= early(p, octant).union(branch(c)));
}

/// A lower octant comes first, and a node before what lies below it.
proof fn lemma_octant_order(p: Path, octant: int, x: Path, y: Path)
    requires
        0 <= octant < 8,
        early(p, octant).contains(x),
        branch(p.push(octant_char(octant))).contains(y),
    ensures
        by_branch()(x, y),
{
    let c = p.push(octant_char(octant));
    let k = p.len() as int;
    assert(c.take(k) =~= p);
    if y != c {
        assert(y.take(k) =~= y.take(k + 1).take(k));
        assert(y.take(k + 1)[k] == y[k]);
    }
    assert(parts_at(x, y, k));
}

/// The list of a branch: its node, if wanted, then what is wanted below it.
proof fn lemma_branch_listed(
    a: Seq<Path>,
    b: Seq<Path>,
    z: Seq<Path>,
    child: Path,
    wanted: Set<Path>,
)
    requires
        b == if wanted.contains(child) {
            a.push(child)
        } else {
            a
        },
        extends(b, z, below(child).intersect(wanted), by_branch()),
    ensures
        extends(a, z, branch(child).intersect(wanted), by_branch()),
{
    let first = set![child].intersect(wanted);
    let rest = below(child).intersect(wanted);
    if wanted.contains(child) {
        lemma_extends_one(a, child, by_branch());
        assert(first =~= set![child]);
    } else {
        lemma_extends_nothing(a, by_branch());
        assert(first =~= Set::<Path>::empty());
    }
    assert forall|x: Path, y: Path| #[trigger]
        first.contains(x) && #[trigger] rest.contains(y) implies by_branch()(x, y) by {}
    lemma_extends_join(a, b, z, first, rest, by_branch());
    assert(first.union(rest) =~= branch(child).intersect(wanted));
}

/// The list of one more octant: what was listed so far, then the octant's branch.
proof fn lemma_octant_listed(
    base: Seq<Path>,
    a: Seq<Path>,
    z: Seq<Path>,
    p: Path,
    octant: int,
    wanted: Set<Path>,
)
    requires
        0 <= octant < 8,
        extends(base, a, early(p, octant).intersect(wanted), by_branch()),
        extends(a, z, branch(p.push(octant_char(octant))).intersect(wanted), by_branch()),
    ensures
        extends(base, z, early(p, octant + 1).intersect(wanted), by_branch()),
{
    let child = p.push(octant_char(octant));
    let first = early(p, octant).intersect(wanted);
    let rest = branch(child).intersect(wanted);
    assert forall|x: Path, y: Path| #[trigger]
        first.contains(x) && #[trigger] rest.contains(y) implies by_branch()(x, y) by {
        lemma_octant_order(p, octant, x, y);
    }
    lemma_extends_join(base, a, z, first, rest, by_branch());
    lemma_octant_parts(p, octant);
    assert(first.union(rest) =~= early(p, octant + 1).intersect(wanted));
}

/// Where nothing is known below its start, a walk meets nothing.
proof fn lemma_shut<O>(tree: Octree<O>, p: Path)
    requires
        !tree.entered(p),
    ensures
        tree.touched_set_from(p) == Set::<Path>::empty(),
        tree.solid_set_from(p) == Set::<Path>::empty(),
        tree.descends_set_from(p) == set![p],
{
    assert forall|q: Path| !tree.touched_from(p, q) by {
        let k = p.len() as int;
        if tree.touched_from(p, q) {
            lemma_touched_prefix(tree, p, q, k);
            assert(q.take(k + 1).drop_last() =~= p);
        }
    }
    assert forall|q: Path| tree.descends_from(p, q) implies q == p by {
        let k = p.len() as int;
        if q.len() > k {
            lemma_descends_prefix(tree, p, q, k + 1);
            assert(false);
        }
    }
    assert(tree.touched_set_from(p) =~= Set::<Path>::empty());
    assert(tree.solid_set_from(p) =~= Set::<Path>::empty());
    assert(tree.descends_set_from(p) =~= set![p]);
}

proof fn lemma_anchors_union<O>(
    tree: Octree<O>,
    start: Path,
    best: Option<Path>,
    data: Set<Path>,
    a: Set<Path>,
    b: Set<Path>,
)
    ensures
        tree.anchors_from(start, best, data, a.union(b)) == tree.anchors_from(
            start,
            best,
            data,
            a,
        ).union(tree.anchors_from(start, best, data, b)),
{
    let both = a.union(b);
    let of_both = tree.anchors_from(start, best, data, both);
    let of_a = tree.anchors_from(start, best, data, a);
    let of_b = tree.anchors_from(start, best, data, b);
    assert forall|x: Path| of_both.contains(x) <==> of_a.union(of_b).contains(x) by {
        if of_both.contains(x) {
            let p = choose|p: Path| #[trigger]
                both.contains(p) && tree.rests_from(start, p) && tree.anchor_from(
                    start,
                    best,
                    data,
                    p,
                ) == Some(x);
            assert(a.contains(p) || b.contains(p));
        }
        if of_a.contains(x) {
            let p = choose|p: Path| #[trigger]
                a.contains(p) && tree.rests_from(start, p) && tree.anchor_from(start, best, data, p)
                    == Some(x);
            assert(both.contains(p));
        }
        if of_b.contains(x) {
            let p = choose|p: Path| #[trigger]
                b.contains(p) && tree.rests_from(start, p) && tree.anchor_from(start, best, data, p)
                    == Some(x);
            assert(both.contains(p));
        }
    }
    assert(of_both =~= of_a.union(of_b));
}

/// Only the ends of a walk call for colliders.
proof fn lemma_anchors_of_touched<O>(
    tree: Octree<O>,
    start: Path,
    best: Option<Path>,
    data: Set<Path>,
    a: Set<Path>,
    b: Set<Path>,
)
    requires
        a.intersect(tree.touched_set_from(start)) == b.intersect(tree.touched_set_from(start)),
    ensures
        tree.anchors_from(start, best, data, a) == tree.anchors_from(start, best, data, b),
{
    let met = tree.touched_set_from(start);
    let of_a = tree.anchors_from(start, best, data, a);
    let of_b = tree.anchors_from(start, best, data, b);
    assert forall|x: Path| of_a.contains(x) <==> of_b.contains(x) by {
        if of_a.contains(x) {
            let p = choose|p: Path| #[trigger]
                a.contains(p) && tree.rests_from(start, p) && tree.anchor_from(start, best, data, p)
                    == Some(x);
            assert(a.intersect(met).contains(p));
            assert(b.contains(p));
        }
        if of_b.contains(x) {
            let p = choose|p: Path| #[trigger]
                b.contains(p) && tree.rests_from(start, p) && tree.anchor_from(start, best, data, p)
                    == Some(x);
            assert(b.intersect(met).contains(p));
            assert(a.contains(p));
        }
    }
    assert(of_a =~= of_b);
}

/// The colliders of a branch: those below its node, and that of the node if the walk ends there.
proof fn lemma_branch_anchors<O>(
    tree: Octree<O>,
    start: Path,
    best: Option<Path>,
    data: Set<Path>,
    c: Path,
)
    ensures
        tree.anchors_from(start, best, data, branch(c)) == if tree.rests_from(start, c) {
            with_anchor(
                tree.anchors_from(start, best, data, below(c)),
                tree.anchor_from(start, best, data, c),
            )
        } else {
            tree.anchors_from(start, best, data, below(c))
        },
{
    let only = set![c];
    let of_below = tree.anchors_from(start, best, data, below(c));
    let of_only = tree.anchors_from(start, best, data, only);
    let own = tree.anchor_from(start, best, data, c);
    lemma_anchors_union(tree, start, best, data, below(c), only);
    assert(branch(c) =~= below(c).union(only));
    assert forall|x: Path|
        of_only.contains(x) <==> tree.rests_from(start, c) && own == Some(x) by {
        if tree.rests_from(start, c) && own == Some(x) {
            assert(only.contains(c));
        }
    }
    let whole = if tree.rests_from(start, c) {
        with_anchor(of_below, own)
    } else {
        of_below
    };
    assert(tree.anchors_from(start, best, data, branch(c)) =~= whole);
}

impl<O> PhysicsBfsResult<O> {
    /// An empty result.
    pub fn new() -> (result: Self)
        ensures
            result.collider_paths@ == Set::<Path>::empty(),
            result.nodes_to_load@.len() == 0,
            result.bulks_to_load@.len() == 0,
            result.potential_nodes@ == Set::<Path>::empty(),
            result.potential_bulks@ == Set::<Path>::empty(),
            result.discovered_obbs@.len() == 0,
    {
        PhysicsBfsResult {
            collider_paths: PathSet::new(),
            nodes_to_load: Vec::new(),
            bulks_to_load: Vec::new(),
            potential_nodes: PathSet::new(),
            potential_bulks: PathSet::new(),
            discovered_obbs: Vec::new(),
        }
    }

    /// Empties the result for the next walk, keeping its buffers.
    pub fn clear(&mut self)
        ensures
            final(self).collider_paths@ == Set::<Path>::empty(),
            final(self).nodes_to_load@.len() == 0,
            final(self).bulks_to_load@.len() == 0,
            final(self).potential_nodes@ == Set::<Path>::empty(),
            final(self).potential_bulks@ == Set::<Path>::empty(),
            final(self).discovered_obbs@.len() == 0,
    {
        self.collider_paths.clear();
        self.nodes_to_load.clear();
        self.bulks_to_load.clear();
        self.potential_nodes.clear();
        self.potential_bulks.clear();
        self.discovered_obbs.clear();
    }
}

/// The collider paths once `anchor`, if any, is one of them.
spec fn with_anchor(paths: Set<Path>, anchor: Option<Path>) -> Set<Path> {
    match anchor {
        Some(a) => paths.insert(a),
        None => paths,
    }
}

/// The path that an optional text holds.
spec fn path_of(text: Option<String>) -> Option<Path> {
    match text {
        Some(t) => Some(t@),
        None => None,
    }
}

/// Picks the deepest node with cached data as the collider of a region, and says whether there is
/// one.
///
/// With no such node the region has no collider for now.
fn commit_physics_collider(best: &Option<String>, paths: &mut PathSet) -> (committed: bool)
    ensures
        final(paths)@ == with_anchor(old(paths)@, path_of(*best)),
        committed == (*best is Some),
{
    match best {
        Some(path) => {
            paths.insert(path.clone());
            true
        },
        None => false,
    }
}

/// Where there is a node to carry a collider on the way down, there is one on the way further down.
proof fn lemma_anchor_stays<O>(
    tree: Octree<O>,
    start: Path,
    best: Option<Path>,
    data: Set<Path>,
    p: Path,
    r: Path,
)
    requires
        start.len() <= p.len(),
        above(p, r),
        tree.anchor_from(start, best, data, p) is Some,
    ensures
        tree.anchor_from(start, best, data, r) is Some,
    decreases r.len(),
{
    let q = r.drop_last();
    assert(q.take(p.len() as int) =~= p);
    if q.len() == p.len() {
        assert(q =~= p);
    } else {
        lemma_anchor_stays(tree, start, best, data, p, q);
    }
}

/// What lies in the branch of a child lies below its parent.
proof fn lemma_below_parent(q: Path, c: char, r: Path)
    requires
        branch(q.push(c)).contains(r),
    ensures
        above(q, r),
{
    let next = q.push(c);
    assert(next.take(q.len() as int) =~= q);
    if r != next {
        assert(r.take(q.len() as int) =~= r.take(next.len() as int).take(q.len() as int));
    }
}

/// From a node that the walk meets, the walk comes to an end.
proof fn lemma_walk_ends<O>(tree: Octree<O>, start: Path, keys: Seq<Path>, q: Path)
    requires
        tree.touched_from(start, q),
        keys.to_set() == tree.bulks.dom(),
    ensures
        exists|r: Path| #[trigger] branch(q).contains(r) && tree.rests_from(start, r),
    decreases longest(keys) + 5 - q.len(),
{
    let p = q.drop_last();
    assert(keys.to_set().contains(bulk_key(p)));
    lemma_longest(keys, bulk_key(p));
    if tree.rests_from(start, q) {
        assert(branch(q).contains(q));
    } else {
        let c = choose|c: char| tree.touched_from(start, #[trigger] q.push(c));
        let next = q.push(c);
        lemma_walk_ends(tree, start, keys, next);
        let r = choose|r: Path| #[trigger] branch(next).contains(r) && tree.rests_from(start, r);
        lemma_below_parent(q, c, r);
        assert(branch(q).contains(r));
    }
}

/// If nothing below a node carries a collider although the walk goes on there, then nothing at or
/// above it can.
proof fn lemma_bare_below<O>(
    tree: Octree<O>,
    start: Path,
    best: Option<Path>,
    data: Set<Path>,
    keys: Seq<Path>,
    q: Path,
)
    requires
        start.len() <= q.len(),
        keys.to_set() == tree.bulks.dom(),
        tree.has_touched_child(start, q),
        tree.anchors_from(start, best, data, below(q)) == Set::<Path>::empty(),
    ensures
        tree.anchor_from(start, best, data, q) is None,
{
    let c = choose|c: char| tree.touched_from(start, #[trigger] q.push(c));
    let next = q.push(c);
    lemma_walk_ends(tree, start, keys, next);
    let r = choose|r: Path| #[trigger] branch(next).contains(r) && tree.rests_from(start, r);
    lemma_below_parent(q, c, r);
    if tree.anchor_from(start, best, data, q) is Some {
        lemma_anchor_stays(tree, start, best, data, q, r);
        assert(below(q).contains(r));
        assert(tree.anchors_from(start, best, data, below(q)).contains(
            tree.anchor_from(start, best, data, r)->0,
        ));
    }
}

/// How many levels lie between a path and the deepest that the bulks can list.
spec fn levels_left(keys: Seq<Path>, depth: nat) -> int {
    if depth <= longest(keys) + 4 {
        longest(keys) + 5 - depth
    } else {
        0
    }
}

/// Walks down from `path` to the nodes that carry colliders.
///
/// `best` is the deepest node with cached data so far. Says whether any child of `path` in range
/// has a collider for its region or for a part of it; if none has, the caller covers the region
/// of `path` itself.
fn physics_walk<O: Copy, D>(
    state: &LodState<O, D>,
    view: &FrameView,
    path: &str,
    best: &Option<String>,
    result: &mut PhysicsBfsResult<O>,
) -> (any_committed: bool)
    requires
        state.wf(),
        state.bulks.listed(),
        nodes_right(state.octree(view), old(result).nodes_to_load@),
        epochs_right(state.octree(view), old(result).bulks_to_load@),
        obbs_right(state.octree(view), old(result).discovered_obbs@),
    ensures
        ({
            let tree = state.octree(view);
            let data = state.node_data@.dom();
            let met = tree.touched_set_from(path@);
            let carriers = tree.anchors_from(path@, path_of(*best), data, met);
            &&& any_committed <==> exists|a: Path| #[trigger] carriers.contains(a)
            &&& extends(
                node_paths(old(result).nodes_to_load@),
                node_paths(final(result).nodes_to_load@),
                tree.solid_set_from(path@).intersect(state.absent_nodes()),
                by_branch(),
            )
            &&& extends(
                pair_paths(old(result).discovered_obbs@),
                pair_paths(final(result).discovered_obbs@),
                met,
                by_branch(),
            )
            &&& extends(
                pair_paths(old(result).bulks_to_load@),
                pair_paths(final(result).bulks_to_load@),
                state.missing_bulks(view, tree.descends_set_from(path@)),
                by_branch(),
            )
            &&& nodes_right(tree, final(result).nodes_to_load@)
            &&& epochs_right(tree, final(result).bulks_to_load@)
            &&& obbs_right(tree, final(result).discovered_obbs@)
            &&& final(result).potential_nodes@ == old(result).potential_nodes@.union(met)
            &&& final(result).potential_bulks@ == old(result).potential_bulks@.union(
                tree.bulks_from(path@),
            )
            &&& final(result).collider_paths@ == old(result).collider_paths@.union(carriers)
        }),
    decreases levels_left(state.bulks.keys(), path@.len()), 1int,
{
    let ghost tree = state.octree(view);
    let ghost data = state.node_data@.dom();
    let ghost p = path@;
    let ghost missing = state.missing_bulks(view, tree.descends_set_from(p));
    let ghost nodes0 = node_paths(result.nodes_to_load@);
    let ghost obbs0 = pair_paths(result.discovered_obbs@);
    let ghost bulks0 = pair_paths(result.bulks_to_load@);
    let ghost met0 = result.potential_nodes@;
    let ghost needed0 = result.potential_bulks@;
    let ghost hosts0 = result.collider_paths@;
    let found = state.find_passage(view, path);
    proof {
        assert(at_boundary(p) ==> bulk_key(p) =~= p);
        assert(tree.descends_from(p, p));
        if !tree.entered(p) {
            lemma_shut(tree, p);
            lemma_extends_nothing(nodes0, by_branch());
            lemma_extends_nothing(obbs0, by_branch());
            lemma_extends_nothing(bulks0, by_branch());
            assert(tree.solid_set_from(p).intersect(state.absent_nodes())
                =~= Set::<Path>::empty());
            assert(tree.bulks_from(p) =~= if tree.declared(p) {
                set![p]
            } else {
                Set::<Path>::empty()
            }) by {
                assert forall|b: Path| tree.bulks_from(p).contains(b) implies b == p by {
                    assert(tree.descends_set_from(p).contains(b));
                }
            }
            assert(missing =~= if tree.declared(p) && state.bulk_absent(p) {
                set![p]
            } else {
                Set::<Path>::empty()
            }) by {
                assert forall|b: Path| missing.contains(b) implies b == p by {
                    assert(tree.descends_set_from(p).contains(b));
                }
                assert(tree.descends_set_from(p).contains(p));
            }
            assert(tree.anchors_from(p, path_of(*best), data, tree.touched_set_from(p))
                =~= Set::<Path>::empty());
            assert(met0.union(Set::<Path>::empty()) =~= met0);
            assert(hosts0.union(Set::<Path>::empty()) =~= hosts0);
            assert(needed0.union(Set::<Path>::empty()) =~= needed0);
        }
    }
    match found {
        Passage::Shut => false,
        Passage::Missing(epoch) => {
            result.potential_bulks.insert(path.to_owned());
            assert(result.potential_bulks@ =~= needed0.union(set![p]));
            if !state.loading_bulks.contains(path) && !state.failed_bulks.contains(path) {
                result.bulks_to_load.push((path.to_owned(), epoch));
                proof {
                    assert(pair_paths(result.bulks_to_load@) =~= bulks0.push(p));
                    lemma_extends_one(bulks0, p, by_branch());
                }
            }
            false
        },
        Passage::Open => {
            let n: usize = path.unicode_len();
            let key = path.substring_char(0, n - n % 4);
            proof {
                assert(key@ =~= bulk_key(p));
                assert(state.bulks.keys().to_set().contains(bulk_key(p)));
                lemma_longest(state.bulks.keys(), bulk_key(p));
            }
            result.potential_bulks.insert(key.to_owned());
            let any = walk_children(state, view, path, best, result);
            proof {
                lemma_all_octants(tree, p);
                assert(below(p).intersect(missing) =~= missing) by {
                    assert forall|b: Path| missing.contains(b) implies below(p).contains(b) by {
                        assert(tree.descends_set_from(p).contains(b));
                        assert(tree.descends_from(p, b));
                        assert(b != p);
                    }
                }
                assert(result.potential_bulks@ =~= needed0.union(tree.bulks_from(p)));
            }
            any
        },
    }
}

/// Looks at the eight children of `path`, which the walk has entered.
fn walk_children<O: Copy, D>(
    state: &LodState<O, D>,
    view: &FrameView,
    path: &str,
    best: &Option<String>,
    result: &mut PhysicsBfsResult<O>,
) -> (any_committed: bool)
    requires
        state.wf(),
        state.bulks.listed(),
        state.octree(view).entered(path@),
        nodes_right(state.octree(view), old(result).nodes_to_load@),
        epochs_right(state.octree(view), old(result).bulks_to_load@),
        obbs_right(state.octree(view), old(result).discovered_obbs@),
        old(result).potential_bulks@.contains(bulk_key(path@)),
    ensures
        ({
            let tree = state.octree(view);
            let data = state.node_data@.dom();
            let met = tree.touched_set_from(path@);
            let carriers = tree.anchors_from(path@, path_of(*best), data, met);
            &&& any_committed <==> exists|a: Path| #[trigger] carriers.contains(a)
            &&& extends(
                node_paths(old(result).nodes_to_load@),
                node_paths(final(result).nodes_to_load@),
                tree.solid_set_from(path@).intersect(state.absent_nodes()),
                by_branch(),
            )
            &&& extends(
                pair_paths(old(result).discovered_obbs@),
                pair_paths(final(result).discovered_obbs@),
                met,
                by_branch(),
            )
            &&& extends(
                pair_paths(old(result).bulks_to_load@),
                pair_paths(final(result).bulks_to_load@),
                below(path@).intersect(state.missing_bulks(view, tree.descends_set_from(path@))),
                by_branch(),
            )
            &&& nodes_right(tree, final(result).nodes_to_load@)
            &&& epochs_right(tree, final(result).bulks_to_load@)
            &&& obbs_right(tree, final(result).discovered_obbs@)
            &&& final(result).potential_nodes@ == old(result).potential_nodes@.union(met)
            &&& final(result).potential_bulks@ == old(result).potential_bulks@.union(
                below(path@).intersect(tree.child_bulks_from(path@)),
            )
            &&& final(result).collider_paths@ == old(result).collider_paths@.union(carriers)
        }),
    decreases levels_left(state.bulks.keys(), path@.len()), 0int,
{
    let ghost tree = state.octree(view);
    let ghost data = state.node_data@.dom();
    let ghost p = path@;
    let ghost above_best = path_of(*best);
    let ghost keys = state.bulks.keys();
    let ghost solid = tree.solid_set_from(p).intersect(state.absent_nodes());
    let ghost met = tree.touched_set_from(p);
    let ghost missing = state.missing_bulks(view, tree.descends_set_from(p));
    let ghost needed = tree.child_bulks_from(p);
    let ghost nodes0 = node_paths(result.nodes_to_load@);
    let ghost obbs0 = pair_paths(result.discovered_obbs@);
    let ghost bulks0 = pair_paths(result.bulks_to_load@);
    let ghost met0 = result.potential_nodes@;
    let ghost needed0 = result.potential_bulks@;
    let ghost hosts0 = result.collider_paths@;
    let mut any_committed = false;
    let mut octant: u8 = 0;
    proof {
        assert(keys.to_set().contains(bulk_key(p)));
        lemma_longest(keys, bulk_key(p));
        lemma_extends_nothing(nodes0, by_branch());
        lemma_extends_nothing(obbs0, by_branch());
        lemma_extends_nothing(bulks0, by_branch());
        assert forall|q: Path| early(p, 0).contains(q) implies !tree.touched_from(p, q)
            && !tree.descends_from(p, q) by {
            if tree.descends_from(p, q) {
                lemma_descends_prefix(tree, p, q, q.len() as int);
                assert(q.take(q.len() as int) =~= q);
            }
            if tree.touched_from(p, q) {
                lemma_touched_prefix(tree, p, q, p.len() as int);
            }
        }
        assert(early(p, 0).intersect(solid) =~= Set::<Path>::empty());
        assert(early(p, 0).intersect(met) =~= Set::<Path>::empty());
        assert(early(p, 0).intersect(missing) =~= Set::<Path>::empty());
        assert(met0.union(early(p, 0).intersect(met)) =~= met0);
        assert(needed0.union(early(p, 0).intersect(needed)) =~= needed0);
        assert(hosts0.union(tree.anchors_from(p, above_best, data, early(p, 0))) =~= hosts0);
    }
    while octant < 8
        invariant
            octant <= 8,
            state.wf(),
            state.bulks.listed(),
            p == path@,
            tree == state.octree(view),
            data == state.node_data@.dom(),
            above_best == path_of(*best),
            keys == state.bulks.keys(),
            p.len() <= longest(keys) + 3,
            solid == tree.solid_set_from(p).intersect(state.absent_nodes()),
            met == tree.touched_set_from(p),
            missing == state.missing_bulks(view, tree.descends_set_from(p)),
            needed == tree.child_bulks_from(p),
            tree.entered(p),
            needed0.contains(bulk_key(p)),
            any_committed <==> exists|a: Path| #[trigger]
                tree.anchors_from(p, above_best, data, early(p, octant as int)).contains(a),
            extends(
                nodes0,
                node_paths(result.nodes_to_load@),
                early(p, octant as int).intersect(solid),
                by_branch(),
            ),
            extends(
                obbs0,
                pair_paths(result.discovered_obbs@),
                early(p, octant as int).intersect(met),
                by_branch(),
            ),
            extends(
                bulks0,
                pair_paths(result.bulks_to_load@),
                early(p, octant as int).intersect(missing),
                by_branch(),
            ),
            nodes_right(tree, result.nodes_to_load@),
            epochs_right(tree, result.bulks_to_load@),
            obbs_right(tree, result.discovered_obbs@),
            result.potential_nodes@ == met0.union(early(p, octant as int).intersect(met)),
            result.potential_bulks@ == needed0.union(early(p, octant as int).intersect(needed)),
            result.collider_paths@ == hosts0.union(
                tree.anchors_from(p, above_best, data, early(p, octant as int)),
            ),
        decreases 8 - octant,
    {
        let ghost q = p.push(octant_char(octant as int));
        let ghost nodes1 = node_paths(result.nodes_to_load@);
        let ghost obbs1 = pair_paths(result.discovered_obbs@);
        let ghost bulks1 = pair_paths(result.bulks_to_load@);
        let committed = visit_child(state, view, path, octant, best, result);
        if committed {
            any_committed = true;
        }
        proof {
            let o = octant as int;
            lemma_octant_listed(nodes0, nodes1, node_paths(result.nodes_to_load@), p, o, solid);
            lemma_octant_listed(obbs0, obbs1, pair_paths(result.discovered_obbs@), p, o, met);
            lemma_octant_listed(bulks0, bulks1, pair_paths(result.bulks_to_load@), p, o, missing);
            lemma_octant_parts(p, o);
            lemma_anchors_union(tree, p, above_best, data, early(p, o), branch(q));
            assert(result.potential_nodes@ =~= met0.union(early(p, o + 1).intersect(met)));
            assert(result.potential_bulks@ =~= needed0.union(early(p, o + 1).intersect(needed)));
            assert(result.collider_paths@ =~= hosts0.union(
                tree.anchors_from(p, above_best, data, early(p, o + 1)),
            ));
            lemma_some_in_union(
                tree.anchors_from(p, above_best, data, early(p, o)),
                tree.anchors_from(p, above_best, data, branch(q)),
            );
        }
        octant = octant + 1;
    }
    proof {
        lemma_all_octants(tree, p);
        assert(early(p, 8).intersect(solid) =~= solid);
        assert(early(p, 8).intersect(met) =~= met);
        assert(early(p, 8).intersect(missing) =~= below(p).intersect(missing));
        assert(early(p, 8).intersect(needed) =~= below(p).intersect(needed));
        assert(early(p, 8).intersect(met) =~= met.intersect(met));
        lemma_anchors_of_touched(tree, p, above_best, data, early(p, 8), met);
    }
    any_committed
}

/// Looks at one child of `path`: asks for its data and covers its region.
///
/// Says whether a collider stands for the region of the child or for a part of it.
fn visit_child<O: Copy, D>(
    state: &LodState<O, D>,
    view: &FrameView,
    path: &str,
    octant: u8,
    best: &Option<String>,
    result: &mut PhysicsBfsResult<O>,
) -> (committed: bool)
    requires
        octant < 8,
        state.wf(),
        state.bulks.listed(),
        path@.len() <= longest(state.bulks.keys()) + 3,
        state.octree(view).entered(path@),
        nodes_right(state.octree(view), old(result).nodes_to_load@),
        epochs_right(state.octree(view), old(result).bulks_to_load@),
        obbs_right(state.octree(view), old(result).discovered_obbs@),
        old(result).potential_bulks@.contains(bulk_key(path@)),
    ensures
        ({
            let tree = state.octree(view);
            let data = state.node_data@.dom();
            let child = path@.push(octant_char(octant as int));
            let solid = tree.solid_set_from(path@).intersect(state.absent_nodes());
            let met = tree.touched_set_from(path@);
            let missing = state.missing_bulks(view, tree.descends_set_from(path@));
            let carriers = tree.anchors_from(path@, path_of(*best), data, branch(child));
            &&& committed <==> exists|a: Path| #[trigger] carriers.contains(a)
            &&& extends(
                node_paths(old(result).nodes_to_load@),
                node_paths(final(result).nodes_to_load@),
                branch(child).intersect(solid),
                by_branch(),
            )
            &&& extends(
                pair_paths(old(result).discovered_obbs@),
                pair_paths(final(result).discovered_obbs@),
                branch(child).intersect(met),
                by_branch(),
            )
            &&& extends(
                pair_paths(old(result).bulks_to_load@),
                pair_paths(final(result).bulks_to_load@),
                branch(child).intersect(missing),
                by_branch(),
            )
            &&& nodes_right(tree, final(result).nodes_to_load@)
            &&& epochs_right(tree, final(result).bulks_to_load@)
            &&& obbs_right(tree, final(result).discovered_obbs@)
            &&& final(result).potential_nodes@ == old(result).potential_nodes@.union(
                branch(child).intersect(met),
            )
            &&& final(result).potential_bulks@ == old(result).potential_bulks@.union(
                branch(child).intersect(tree.child_bulks_from(path@)),
            )
            &&& final(result).collider_paths@ == old(result).collider_paths@.union(carriers)
        }),
    decreases levels_left(state.bulks.keys(), path@.len()) - 1, 2int,
{
    let ghost tree = state.octree(view);
    let ghost data = state.node_data@.dom();
    let ghost p = path@;
    let ghost above_best = path_of(*best);
    let ghost q = p.push(octant_char(octant as int));
    let ghost solid = tree.solid_set_from(p).intersect(state.absent_nodes());
    let ghost met = tree.touched_set_from(p);
    let ghost missing = state.missing_bulks(view, tree.descends_set_from(p));
    let ghost needed = tree.child_bulks_from(p);
    let ghost nodes0 = node_paths(result.nodes_to_load@);
    let ghost obbs0 = pair_paths(result.discovered_obbs@);
    let ghost bulks0 = pair_paths(result.bulks_to_load@);
    let ghost met0 = result.potential_nodes@;
    let ghost needed0 = result.potential_bulks@;
    let ghost hosts0 = result.collider_paths@;
    let ghost carriers = tree.anchors_from(p, above_best, data, branch(q));
    let ghost finer = tree.anchors_from(p, above_best, data, below(q));
    proof {
        assert(q.drop_last() =~= p);
        lemma_branch_anchors(tree, p, above_best, data, q);
        lemma_extends_nothing(nodes0, by_branch());
        lemma_extends_nothing(obbs0, by_branch());
        lemma_extends_nothing(bulks0, by_branch());
        if !tree.descends_from(p, q) {
            lemma_nothing_below(tree, p, q);
            assert(below(q).intersect(solid) =~= Set::<Path>::empty());
            assert(below(q).intersect(met) =~= Set::<Path>::empty());
            assert(branch(q).intersect(missing) =~= Set::<Path>::empty());
            assert(finer =~= Set::<Path>::empty());
            assert(needed0.union(branch(q).intersect(needed)) =~= needed0);
        }
        if !tree.touched_from(p, q) {
            assert(branch(q).intersect(solid) =~= Set::<Path>::empty());
            assert(branch(q).intersect(met) =~= Set::<Path>::empty());
            assert(met0.union(branch(q).intersect(met)) =~= met0);
            assert(hosts0.union(carriers) =~= hosts0);
        }
    }
    let (child, node, verdict) = match state.find_child(view, path, octant) {
        Some(found) => found,
        None => {
            return false;
        },
    };
    let target: usize = match verdict.physics_depth {
        Some(depth) => depth,
        None => {
            return false;
        },
    };
    result.potential_nodes.insert(node.path.clone());
    result.discovered_obbs.push((node.path.clone(), node.obb));
    let ghost obbs1 = pair_paths(result.discovered_obbs@);
    assert(obbs1 =~= obbs0.push(q));
    let updated: Option<String> = if node.has_data && state.node_data.contains_key(
        node.path.as_str(),
    ) {
        Some(node.path.clone())
    } else {
        match best {
            Some(path) => Some(path.clone()),
            None => None,
        }
    };
    assert(tree.anchor_from(p, above_best, data, p) == above_best);
    assert(path_of(updated) == tree.anchor_from(p, above_best, data, q));
    if node.has_data && !state.loaded_nodes.contains(node.path.as_str())
        && !state.loading_nodes.contains(node.path.as_str()) {
        result.nodes_to_load.push(node.duplicate());
    }
    let ghost nodes1 = node_paths(result.nodes_to_load@);
    assert(nodes1 =~= if solid.contains(q) {
        nodes0.push(q)
    } else {
        nodes0
    });
    assert(result.potential_nodes@ =~= met0.insert(q));
    let depth: usize = child.as_str().unicode_len();
    let committed = if depth >= target {
        proof {
            lemma_extends_nothing(nodes1, by_branch());
            lemma_extends_nothing(obbs1, by_branch());
        }
        commit_physics_collider(&updated, &mut result.collider_paths)
    } else {
        let descended = physics_walk(state, view, child.as_str(), &updated, result);
        proof {
            lemma_walk_continues(tree, p, above_best, data, q);
            assert(tree.solid_set_from(q).intersect(state.absent_nodes()) =~= below(
                q,
            ).intersect(solid));
            assert(state.missing_bulks(view, tree.descends_set_from(q)) =~= branch(q).intersect(
                missing,
            ));
            lemma_bulks_of_child(tree, p, octant as int);
        }
        if descended {
            proof {
                let a = choose|a: Path| #[trigger] finer.contains(a);
                let r = choose|r: Path| #[trigger]
                    below(q).contains(r) && tree.rests_from(p, r) && tree.anchor_from(
                        p,
                        above_best,
                        data,
                        r,
                    ) == Some(a);
                let k = q.len() as int;
                lemma_touched_prefix(tree, p, r, k);
                assert(r.take(k + 1) =~= q.push(r[k]));
                assert(tree.has_touched_child(p, q));
                assert(carriers.contains(a));
            }
            true
        } else {
            proof {
                assert(finer =~= Set::<Path>::empty());
                if tree.has_touched_child(p, q) {
                    lemma_bare_below(tree, p, above_best, data, state.bulks.keys(), q);
                }
            }
            commit_physics_collider(&updated, &mut result.collider_paths)
        }
    };
    proof {
        lemma_branch_listed(nodes0, nodes1, node_paths(result.nodes_to_load@), q, solid);
        lemma_branch_listed(obbs0, obbs1, pair_paths(result.discovered_obbs@), q, met);
        assert(result.potential_nodes@ =~= met0.union(branch(q).intersect(met)));
        assert(result.potential_bulks@ =~= needed0.union(branch(q).intersect(needed)));
        assert(result.collider_paths@ =~= hosts0.union(carriers));
        if committed {
            if updated is Some {
                assert(tree.rests_from(p, q) ==> carriers.contains(updated->0@));
            }
        } else {
            assert(carriers =~= Set::<Path>::empty());
        }
    }
    committed
}

/// The bulks that the walk needs below a child: those below it, and the one in use.
proof fn lemma_bulks_of_child<O>(tree: Octree<O>, p: Path, octant: int)
    requires
        0 <= octant < 8,
        tree.descends_from(p, p.push(octant_char(octant))),
    ensures
        ({
            let q = p.push(octant_char(octant));
            tree.bulks_from(q).subset_of(
                branch(q).intersect(tree.child_bulks_from(p)).insert(bulk_key(p)),
            ) && branch(q).intersect(tree.child_bulks_from(p)).subset_of(tree.bulks_from(q))
        }),
{
    let q = p.push(octant_char(octant));
    let rest = branch(q).intersect(tree.child_bulks_from(p));
    lemma_walk_continues(tree, p, None, Set::empty(), q);
    assert forall|b: Path| tree.bulks_from(q).contains(b) implies rest.insert(bulk_key(p)).contains(
        b,
    ) by {
        if tree.descends_from(q, b) && tree.declared(b) {
            assert(tree.descends_set_from(q).contains(b));
            assert(rest.contains(b));
        } else if at_boundary(q) {
            assert(bulk_key(q) =~= q);
            assert(branch(q).contains(q));
        } else {
            assert(bulk_key(q) =~= bulk_key(p));
        }
    }
    assert forall|b: Path| rest.contains(b) implies tree.bulks_from(q).contains(b) by {
        assert(branch(q).intersect(tree.descends_set_from(p)).contains(b));
        assert(tree.descends_set_from(q).contains(b));
    }
}

proof fn lemma_some_in_union(a: Set<Path>, b: Set<Path>)
    ensures
        (exists|x: Path| #[trigger] a.union(b).contains(x)) <==> (exists|x: Path| #[trigger]
            a.contains(x)) || (exists|x: Path| #[trigger] b.contains(x)),
{
    if exists|x: Path| #[trigger] a.contains(x) {
        let x = choose|x: Path| #[trigger] a.contains(x);
        assert(a.union(b).contains(x));
    }
    if exists|x: Path| #[trigger] b.contains(x) {
        let x = choose|x: Path| #[trigger] b.contains(x);
        assert(a.union(b).contains(x));
    }
}

/// Whether a proper ancestor of `path` is one of `paths`.
fn lies_below(path: &str, paths: &PathSet) -> (yes: bool)
    ensures
        yes <==> exists|b: Path| #[trigger] paths@.contains(b) && above(b, path@),
{
    let n: usize = path.unicode_len();
    let mut k: usize = 0;
    while k < n
        invariant
            k <= n,
            n == path@.len(),
            forall|b: Path| #[trigger] paths@.contains(b) && above(b, path@) ==> b.len() >= k,
        decreases n - k,
    {
        let prefix = path.substring_char(0, k);
        if paths.contains(prefix) {
            assert(prefix@ =~= path@.take(k as int));
            assert(above(prefix@, path@));
            return true;
        }
        assert forall|b: Path| #[trigger] paths@.contains(b) && above(b, path@) implies b.len() >= k
            + 1 by {
            if b.len() == k {
                assert(prefix@ =~= path@.take(k as int));
            }
        }
        k = k + 1;
    }
    false
}

/// The paths that lie below no other.
fn keep_outermost(paths: &PathSet) -> (kept: PathSet)
    ensures
        kept@ == outermost(paths@),
{
    let n: usize = paths.len();
    let ghost keys = paths.keys();
    let mut kept: PathSet = PathSet::new();
    let mut i: usize = 0;
    assert(kept@ =~= outermost(paths@).intersect(keys.take(0).to_set()));
    while i < n
        invariant
            i <= n,
            n == keys.len(),
            keys == paths.keys(),
            kept@ == outermost(paths@).intersect(keys.take(i as int).to_set()),
        decreases n - i,
    {
        let path = paths.key_at(i);
        proof {
            lemma_take_next(keys, i as int);
        }
        if !lies_below(path.as_str(), paths) {
            kept.insert(path.clone());
        }
        assert(kept@ =~= outermost(paths@).intersect(keys.take(i + 1).to_set()));
        i = i + 1;
    }
    assert(keys.take(n as int) =~= keys);
    assert(kept@ =~= outermost(paths@));
    kept
}

/// Walks the octree branch by branch to find the terrain colliders.
///
/// The walk goes below a node while it is in range and coarser than wanted at its distance.
/// Where it ends, the deepest node with cached data on the way carries the collider, so that
/// ground that was once loaded stays solid while finer ground is on its way. Such a collider also
/// covers the finer ones below it, which then are left out: no two colliders overlap.
pub fn physics_bfs_traversal<O: Copy, D>(
    state: &LodState<O, D>,
    view: &FrameView,
    result: &mut PhysicsBfsResult<O>,
)
    requires
        state.wf(),
    ensures
        state.physics_finds(view, final(result)),
{
    result.clear();
    let _cached: usize = state.bulks.len();
    let ghost tree = state.octree(view);
    let ghost data = state.node_data@.dom();
    let ghost root = Seq::<char>::empty();
    let none: Option<String> = None;
    let path = String::new();
    proof {
        assert(node_paths(result.nodes_to_load@) =~= Seq::<Path>::empty());
        assert(pair_paths(result.discovered_obbs@) =~= Seq::<Path>::empty());
        assert(pair_paths(result.bulks_to_load@) =~= Seq::<Path>::empty());
    }
    physics_walk(state, view, path.as_str(), &none, result);
    let kept = keep_outermost(&result.collider_paths);
    proof {
        let solid = tree.solid_set().intersect(state.absent_nodes());
        let missing = state.missing_bulks(view, tree.descends_set());
        assert(path@ =~= root);
        assert(result.potential_nodes@ =~= tree.touched_set());
        assert(result.potential_bulks@ =~= tree.physics_bulks());
        assert(result.collider_paths@ =~= tree.anchors(data, tree.touched_set()));
        lemma_extends_empty(node_paths(result.nodes_to_load@), solid, by_branch());
        lemma_extends_empty(
            pair_paths(result.discovered_obbs@),
            tree.touched_set(),
            by_branch(),
        );
        lemma_extends_empty(pair_paths(result.bulks_to_load@), missing, by_branch());
    }
    result.collider_paths = kept;
}

} // verus!
