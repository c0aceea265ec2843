//! Lists of paths in the order of a walk.

use vstd::prelude::*;
use crate::path_map::Path;

verus! {

/// `a` and `b` part at position `k`, where `a` takes the lower branch.
pub open spec fn parts_at(a: Path, b: Path, k: int) -> bool {
    0 <= k < a.len() && k < b.len() && a.take(k) == b.take(k) && a[k] < b[k]
}

/// `a` takes the lower branch where the two paths part.
pub open spec fn branches_before(a: Path, b: Path) -> bool {
    exists|k: int| parts_at(a, b, k)
}

/// The order of a walk level by level: shorter paths first, then by branch.
pub open spec fn level_before(a: Path, b: Path) -> bool {
    a.len() < b.len() || (a.len() == b.len() && branches_before(a, b))
}

/// Whether `a` is a proper ancestor of `b`.
pub open spec fn above(a: Path, b: Path) -> bool {
    a.len() < b.len() && b.take(a.len() as int) == a
}

/// The order of a walk branch by branch: a node before what lies below it, then by branch.
pub open spec fn tree_before(a: Path, b: Path) -> bool {
    above(a, b) || branches_before(a, b)
}

/// Whether the paths stand in the order `before`, without repetition.
pub open spec fn ordered(paths: Seq<Path>, before: spec_fn(Path, Path) -> bool) -> bool {
    forall|i: int, j: int| 0 <= i < j < paths.len() ==> before(#[trigger] paths[i], #[trigger] paths[j])
}

/// The order of a walk level by level, as a relation.
pub open spec fn by_level() -> spec_fn(Path, Path) -> bool {
    |a: Path, b: Path| level_before(a, b)
}

/// The order of a walk branch by branch, as a relation.
pub open spec fn by_branch() -> spec_fn(Path, Path) -> bool {
    |a: Path, b: Path| tree_before(a, b)
}

/// Whether `paths` lists exactly `members`, in the order `before`.
pub open spec fn lists(
    paths: Seq<Path>,
    members: Set<Path>,
    before: spec_fn(Path, Path) -> bool,
) -> bool {
    &&& ordered(paths, before)
    &&& forall|q: Path| #[trigger] paths.contains(q) <==> members.contains(q)
}

/// Whether `new_paths` is `old_paths` with a list of `members` behind it.
pub open spec fn extends(
    old_paths: Seq<Path>,
    new_paths: Seq<Path>,
    members: Set<Path>,
    before: spec_fn(Path, Path) -> bool,
) -> bool {
    &&& old_paths.len() <= new_paths.len()
    &&& new_paths.take(old_paths.len() as int) == old_paths
    &&& lists(new_paths.skip(old_paths.len() as int), members, before)
}

pub proof fn lemma_extends_nothing(paths: Seq<Path>, before: spec_fn(Path, Path) -> bool)
    ensures
        extends(paths, paths, Set::empty(), before),
{
    assert(paths.take(paths.len() as int) =~= paths);
    assert(paths.skip(paths.len() as int) =~= Seq::<Path>::empty());
}

pub proof fn lemma_extends_one(paths: Seq<Path>, p: Path, before: spec_fn(Path, Path) -> bool)
    ensures
        extends(paths, paths.push(p), set![p], before),
{
    let ext = paths.push(p).skip(paths.len() as int);
    assert(ext =~= seq![p]);
    assert(paths.push(p).take(paths.len() as int) =~= paths);
    assert(ext[0] == p);
}

/// A list behind a list is a list, if all of the first come before all of the second.
pub proof fn lemma_extends_join(
    a: Seq<Path>,
    b: Seq<Path>,
    c: Seq<Path>,
    first: Set<Path>,
    second: Set<Path>,
    before: spec_fn(Path, Path) -> bool,
)
    requires
        extends(a, b, first, before),
        extends(b, c, second, before),
        forall|x: Path, y: Path| #[trigger]
            first.contains(x) && #[trigger] second.contains(y) ==> before(x, y),
    ensures
        extends(a, c, first.union(second), before),
{
    let x = b.skip(a.len() as int);
    let y = c.skip(b.len() as int);
    let z = c.skip(a.len() as int);
    let both = first.union(second);
    assert(c.take(a.len() as int) =~= c.take(b.len() as int).take(a.len() as int));
    assert(z =~= x + y) by {
        assert(c =~= c.take(b.len() as int) + y);
    }
    assert forall|q: Path| #[trigger] z.contains(q) <==> both.contains(q) by {
        if z.contains(q) {
            let i = z.index_of(q);
            if i < x.len() {
                assert(x[i] == q);
                assert(x.contains(q));
            } else {
                assert(y[i - x.len()] == q);
                assert(y.contains(q));
            }
        }
        if both.contains(q) {
            if first.contains(q) {
                assert(x.contains(q));
                assert(z[x.index_of(q)] == q);
            } else {
                assert(y.contains(q));
                assert(z[x.len() + y.index_of(q)] == q);
            }
        }
    }
    assert forall|i: int, j: int| 0 <= i < j < z.len() implies before(
        #[trigger] z[i],
        #[trigger] z[j],
    ) by {
        if j < x.len() {
            assert(z[i] == x[i] && z[j] == x[j]);
        } else if i >= x.len() {
            assert(z[i] == y[i - x.len()] && z[j] == y[j - x.len()]);
        } else {
            assert(z[i] == x[i] && z[j] == y[j - x.len()]);
            assert(x.contains(x[i]));
            assert(y.contains(y[j - x.len()]));
        }
    }
}

/// What extends the empty list is itself a list.
pub proof fn lemma_extends_empty(
    paths: Seq<Path>,
    members: Set<Path>,
    before: spec_fn(Path, Path) -> bool,
)
    ensures
        extends(Seq::empty(), paths, members, before) <==> lists(paths, members, before),
{
    assert(paths.skip(0) =~= paths);
    assert(paths.take(0) =~= Seq::<Path>::empty());
}

} // verus!
