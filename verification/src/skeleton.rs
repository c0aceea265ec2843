//! Walks over a spawned scene: bones by name, meshes to hide, mask groups.

use vstd::prelude::*;
use vstd::string::*;
use crate::bones::{bone_mask_group, bone_stem, mask_group, stem_of};
use crate::text;

verus! {

/// One entity of a scene.
pub struct SceneNode {
    /// The entity's number.
    pub entity: u64,
    pub name: Option<String>,
    /// Where the children stand in the scene, in order.
    pub children: Vec<usize>,
}

/// A spawned scene, each entity before its children.
pub struct SceneTree {
    pub nodes: Vec<SceneNode>,
}

impl SceneTree {
    /// Every child stands behind its parent.
    pub open spec fn wf(&self) -> bool {
        forall|i: int, k: int|
            0 <= i < self.nodes@.len() && 0 <= k < self.nodes@[i].children@.len() ==> i
                < #[trigger] self.nodes@[i].children@[k] < self.nodes@.len()
    }

    /// The entities from `i` down in the order of a walk with a stack: a node, then its children
    /// from the last to the first.
    pub open spec fn walk(&self, i: int) -> Seq<int>
        decreases self.nodes@.len() - i, 0nat, 0nat,
    {
        if 0 <= i < self.nodes@.len() {
            seq![i] + self.walk_stack(
                self.nodes@[i].children@.map_values(|c: usize| c as int),
                i + 1,
            )
        } else {
            seq![]
        }
    }

    /// The entities below a stack of places from `low` on, from the top of the stack down.
    pub open spec fn walk_stack(&self, stack: Seq<int>, low: int) -> Seq<int>
        decreases self.nodes@.len() - low, 1nat, stack.len(),
    {
        if stack.len() == 0 {
            seq![]
        } else {
            let top = if low <= stack.last() < self.nodes@.len() {
                self.walk(stack.last())
            } else {
                seq![]
            };
            top + self.walk_stack(stack.drop_last(), low)
        }
    }

    /// The name of the entity at place `i`, if it has one.
    pub open spec fn name_at(&self, i: int) -> Option<Seq<char>> {
        match self.nodes@[i].name {
            Some(name) => Some(name@),
            None => None,
        }
    }
}

/// Whether all places of a stack lie from `low` on and within the scene.
spec fn stack_fits(tree: &SceneTree, stack: Seq<int>, low: int) -> bool {
    forall|k: int| 0 <= k < stack.len() ==> low <= #[trigger] stack[k] < tree.nodes@.len()
}

/// The lower bound of a stack does not matter as long as it holds.
proof fn lemma_low_bound(tree: &SceneTree, stack: Seq<int>, a: int, b: int)
    requires
        stack_fits(tree, stack, a),
        stack_fits(tree, stack, b),
    ensures
        tree.walk_stack(stack, a) == tree.walk_stack(stack, b),
    decreases stack.len(),
{
    if stack.len() > 0 {
        assert(a <= stack[stack.len() - 1] && b <= stack[stack.len() - 1]);
        assert(stack_fits(tree, stack.drop_last(), a)) by {
            assert forall|k: int| 0 <= k < stack.drop_last().len() implies a
                <= #[trigger] stack.drop_last()[k] < tree.nodes@.len() by {
                assert(stack.drop_last()[k] == stack[k]);
            }
        }
        assert(stack_fits(tree, stack.drop_last(), b)) by {
            assert forall|k: int| 0 <= k < stack.drop_last().len() implies b
                <= #[trigger] stack.drop_last()[k] < tree.nodes@.len() by {
                assert(stack.drop_last()[k] == stack[k]);
            }
        }
        lemma_low_bound(tree, stack.drop_last(), a, b);
    }
}

/// What lies on top of a stack is walked first.
proof fn lemma_stack_join(tree: &SceneTree, bottom: Seq<int>, top: Seq<int>, low: int)
    ensures
        tree.walk_stack(bottom + top, low) == tree.walk_stack(top, low) + tree.walk_stack(
            bottom,
            low,
        ),
    decreases top.len(),
{
    if top.len() == 0 {
        assert(bottom + top =~= bottom);
        assert(tree.walk_stack(top, low) + tree.walk_stack(bottom, low) =~= tree.walk_stack(
            bottom,
            low,
        ));
    } else {
        let rest = top.drop_last();
        lemma_stack_join(tree, bottom, rest, low);
        assert((bottom + top).drop_last() =~= bottom + rest);
        assert((bottom + top).last() == top.last());
        assert(tree.walk_stack(bottom + top, low) =~= tree.walk_stack(top, low) + tree.walk_stack(
            bottom,
            low,
        ));
    }
}

/// Where the places of a list stand, as plain numbers.
pub open spec fn places(list: Seq<usize>) -> Seq<int> {
    list.map_values(|i: usize| i as int)
}

impl SceneTree {
    /// Lists the entities from `root` down in the order of a walk with a stack.
    pub fn descendants(&self, root: usize) -> (order: Vec<usize>)
        requires
            self.wf(),
            root < self.nodes@.len(),
        ensures
            places(order@) == self.walk(root as int),
            forall|k: int| 0 <= k < order@.len() ==> #[trigger] order@[k] < self.nodes@.len(),
    {
        let mut order: Vec<usize> = Vec::new();
        let mut stack: Vec<usize> = Vec::new();
        stack.push(root);
        let ghost whole = self.walk(root as int);
        proof {
            assert(places(stack@) =~= seq![root as int]);
            let one = seq![root as int];
            assert(one.drop_last() =~= Seq::<int>::empty());
            assert(self.walk_stack(one.drop_last(), 0) =~= Seq::<int>::empty());
            assert(self.walk_stack(one, 0) =~= whole);
            assert(places(order@) + self.walk_stack(places(stack@), 0) =~= whole);
        }
        while stack.len() > 0
            invariant
                self.wf(),
                whole == self.walk(root as int),
                places(order@) + self.walk_stack(places(stack@), 0) == whole,
                stack_fits(self, places(stack@), 0),
                forall|k: int| 0 <= k < order@.len() ==> #[trigger] order@[k] < self.nodes@.len(),
            decreases whole.len() - order@.len(),
        {
            let ghost before = places(stack@);
            let ghost done = places(order@);
            let top: usize = match stack.pop() {
                Some(top) => top,
                None => 0,
            };
            let ghost rest = places(stack@);
            proof {
                assert(before.last() == top as int);
                assert(before[before.len() - 1] == top as int);
                assert(before.drop_last() =~= rest);
            }
            order.push(top);
            let ghost kids = places(self.nodes@[top as int].children@);
            let n: usize = self.nodes[top].children.len();
            let mut k: usize = 0;
            assert(places(stack@) =~= rest + kids.take(0));
            while k < n
                invariant
                    k <= n,
                    top < self.nodes@.len(),
                    n == self.nodes@[top as int].children@.len(),
                    kids == places(self.nodes@[top as int].children@),
                    places(stack@) == rest + kids.take(k as int),
                decreases n - k,
            {
                let ghost sofar = places(stack@);
                stack.push(self.nodes[top].children[k]);
                assert(places(stack@) =~= sofar.push(kids[k as int]));
                assert(kids.take(k + 1) =~= kids.take(k as int).push(kids[k as int]));
                assert(places(stack@) =~= rest + kids.take(k + 1));
                k = k + 1;
            }
            proof {
                let t = top as int;
                assert(kids.take(n as int) =~= kids);
                assert(kids =~= self.nodes@[t].children@.map_values(|c: usize| c as int));
                assert(stack_fits(self, kids, t + 1)) by {
                    assert forall|j: int| 0 <= j < kids.len() implies t + 1 <= #[trigger] kids[j]
                        < self.nodes@.len() by {
                        assert(t < self.nodes@[t].children@[j]);
                    }
                }
                assert(stack_fits(self, kids, 0)) by {
                    assert forall|j: int| 0 <= j < kids.len() implies 0 <= #[trigger] kids[j]
                        < self.nodes@.len() by {
                        assert(t < self.nodes@[t].children@[j]);
                    }
                }
                lemma_low_bound(self, kids, t + 1, 0);
                lemma_stack_join(self, rest, kids, 0);
                assert(places(order@) =~= done.push(t));
                assert(self.walk(t) =~= seq![t] + self.walk_stack(kids, 0));
                assert(self.walk_stack(before, 0) =~= self.walk(t) + self.walk_stack(rest, 0));
                assert(places(order@) + self.walk_stack(places(stack@), 0) =~= whole);
                assert(stack_fits(self, places(stack@), 0)) by {
                    assert forall|j: int| 0 <= j < places(stack@).len() implies 0
                        <= #[trigger] places(stack@)[j] < self.nodes@.len() by {
                        if j < rest.len() {
                            assert(places(stack@)[j] == before[j]);
                        } else {
                            assert(places(stack@)[j] == kids[j - rest.len()]);
                        }
                    }
                }
                assert(whole.len() >= order@.len());
            }
        }
        proof {
            assert(places(stack@) =~= Seq::<int>::empty());
            assert(places(order@) + self.walk_stack(places(stack@), 0) =~= places(order@));
        }
        order
    }
}

/// The first of `order` whose entity is one that `wanted` holds.
pub open spec fn first_of(order: Seq<int>, wanted: Set<int>) -> Option<int>
    decreases order.len(),
{
    if order.len() == 0 {
        None
    } else if wanted.contains(order[0]) {
        Some(order[0])
    } else {
        first_of(order.skip(1), wanted)
    }
}

/// Those of `order` that `wanted` holds, in order.
pub open spec fn all_of(order: Seq<int>, wanted: Set<int>) -> Seq<int>
    decreases order.len(),
{
    if order.len() == 0 {
        order
    } else if wanted.contains(order.last()) {
        all_of(order.drop_last(), wanted).push(order.last())
    } else {
        all_of(order.drop_last(), wanted)
    }
}

proof fn lemma_first_of_skip(order: Seq<int>, wanted: Set<int>, k: int)
    requires
        0 <= k <= order.len(),
        forall|j: int| 0 <= j < k ==> !wanted.contains(#[trigger] order[j]),
    ensures
        first_of(order, wanted) == first_of(order.skip(k), wanted),
    decreases k,
{
    if k == 0 {
        assert(order.skip(0) =~= order);
    } else {
        assert(!wanted.contains(order[0]));
        assert forall|j: int| 0 <= j < k - 1 implies !wanted.contains(#[trigger] order.skip(1)[j]) by {
            assert(order.skip(1)[j] == order[j + 1]);
        }
        lemma_first_of_skip(order.skip(1), wanted, k - 1);
        assert(order.skip(1).skip(k - 1) =~= order.skip(k));
    }
}

impl SceneTree {
    /// The places whose entity has the name `name`.
    pub open spec fn named(&self, name: Seq<char>) -> Set<int> {
        Set::new(|i: int| self.name_at(i) == Some(name))
    }

    /// The places whose entity has a name with the stem `stem`.
    pub open spec fn stemmed(&self, stem: Seq<char>) -> Set<int> {
        Set::new(|i: int| self.name_at(i) is Some && stem_of(self.name_at(i)->0) == stem)
    }

    /// The entity at the first place of the walk from `root` that `wanted` holds.
    pub open spec fn found(&self, root: int, wanted: Set<int>) -> Option<u64> {
        match first_of(self.walk(root), wanted) {
            Some(i) => Some(self.nodes@[i].entity),
            None => None,
        }
    }

    /// Finds the first entity of the walk from `root` with the name `name`.
    pub fn find_descendant_by_name(&self, root: usize, name: &str) -> (entity: Option<u64>)
        requires
            self.wf(),
            root < self.nodes@.len(),
        ensures
            entity == self.found(root as int, self.named(name@)),
    {
        let order = self.descendants(root);
        let ghost all = places(order@);
        let ghost wanted = self.named(name@);
        let mut k: usize = 0;
        while k < order.len()
            invariant
                k <= order@.len(),
                all == places(order@),
                all == self.walk(root as int),
                wanted == self.named(name@),
                forall|j: int| 0 <= j < order@.len() ==> #[trigger] order@[j] < self.nodes@.len(),
                forall|j: int| 0 <= j < k ==> !wanted.contains(#[trigger] all[j]),
            decreases order@.len() - k,
        {
            let i: usize = order[k];
            assert(all[k as int] == i as int);
            let hit = match &self.nodes[i].name {
                Some(own) => text::same_text(own.as_str(), name),
                None => false,
            };
            if hit {
                proof {
                    lemma_first_of_skip(all, wanted, k as int);
                    assert(all.skip(k as int)[0] == i as int);
                }
                return Some(self.nodes[i].entity);
            }
            k = k + 1;
        }
        proof {
            lemma_first_of_skip(all, wanted, all.len() as int);
        }
        None
    }

    /// Finds the first entity of the walk from `root` whose name has the stem `stem`.
    pub fn find_descendant_by_bone_stem(&self, root: usize, stem: &str) -> (entity: Option<u64>)
        requires
            self.wf(),
            root < self.nodes@.len(),
        ensures
            entity == self.found(root as int, self.stemmed(stem@)),
    {
        let order = self.descendants(root);
        let ghost all = places(order@);
        let ghost wanted = self.stemmed(stem@);
        let mut k: usize = 0;
        while k < order.len()
            invariant
                k <= order@.len(),
                all == places(order@),
                all == self.walk(root as int),
                wanted == self.stemmed(stem@),
                forall|j: int| 0 <= j < order@.len() ==> #[trigger] order@[j] < self.nodes@.len(),
                forall|j: int| 0 <= j < k ==> !wanted.contains(#[trigger] all[j]),
            decreases order@.len() - k,
        {
            let i: usize = order[k];
            assert(all[k as int] == i as int);
            let hit = match &self.nodes[i].name {
                Some(own) => text::same_text(bone_stem(own.as_str()), stem),
                None => false,
            };
            if hit {
                proof {
                    lemma_first_of_skip(all, wanted, k as int);
                    assert(all.skip(k as int)[0] == i as int);
                }
                return Some(self.nodes[i].entity);
            }
            k = k + 1;
        }
        proof {
            lemma_first_of_skip(all, wanted, all.len() as int);
        }
        None
    }

    /// Finds the first entity of the walk from `root` that is one of `marked`.
    ///
    /// `marked` says for each place whether the entity there has what is looked for.
    pub fn find_descendant_with(&self, root: usize, marked: &Vec<bool>) -> (entity: Option<u64>)
        requires
            self.wf(),
            root < self.nodes@.len(),
            marked@.len() == self.nodes@.len(),
        ensures
            entity == self.found(root as int, Set::new(|i: int| marked@[i])),
    {
        let order = self.descendants(root);
        let ghost all = places(order@);
        let ghost wanted = Set::new(|i: int| marked@[i]);
        let mut k: usize = 0;
        while k < order.len()
            invariant
                k <= order@.len(),
                all == places(order@),
                all == self.walk(root as int),
                marked@.len() == self.nodes@.len(),
                wanted == Set::new(|i: int| marked@[i]),
                forall|j: int| 0 <= j < order@.len() ==> #[trigger] order@[j] < self.nodes@.len(),
                forall|j: int| 0 <= j < k ==> !wanted.contains(#[trigger] all[j]),
            decreases order@.len() - k,
        {
            let i: usize = order[k];
            assert(all[k as int] == i as int);
            if marked[i] {
                proof {
                    lemma_first_of_skip(all, wanted, k as int);
                    assert(all.skip(k as int)[0] == i as int);
                }
                return Some(self.nodes[i].entity);
            }
            k = k + 1;
        }
        proof {
            lemma_first_of_skip(all, wanted, all.len() as int);
        }
        None
    }

    /// Lists the entities of the walk from `root` that are one of `marked`.
    pub fn descendants_with(&self, root: usize, marked: &Vec<bool>) -> (entities: Vec<u64>)
        requires
            self.wf(),
            root < self.nodes@.len(),
            marked@.len() == self.nodes@.len(),
        ensures
            entities@ == all_of(self.walk(root as int), Set::new(|i: int| marked@[i])).map_values(
                |i: int| self.nodes@[i].entity,
            ),
    {
        let order = self.descendants(root);
        let ghost all = places(order@);
        let ghost wanted = Set::new(|i: int| marked@[i]);
        let ghost numbered = |i: int| self.nodes@[i].entity;
        let mut entities: Vec<u64> = Vec::new();
        let mut k: usize = 0;
        assert(entities@ =~= all_of(all.take(0), wanted).map_values(numbered));
        while k < order.len()
            invariant
                k <= order@.len(),
                all == places(order@),
                all == self.walk(root as int),
                marked@.len() == self.nodes@.len(),
                wanted == Set::new(|i: int| marked@[i]),
                numbered == (|i: int| self.nodes@[i].entity),
                forall|j: int| 0 <= j < order@.len() ==> #[trigger] order@[j] < self.nodes@.len(),
                entities@ == all_of(all.take(k as int), wanted).map_values(numbered),
            decreases order@.len() - k,
        {
            let i: usize = order[k];
            let ghost before = entities@;
            proof {
                assert(all[k as int] == i as int);
                assert(all.take(k + 1).drop_last() =~= all.take(k as int));
                assert(all.take(k + 1).last() == i as int);
            }
            if marked[i] {
                entities.push(self.nodes[i].entity);
                assert(entities@ =~= all_of(all.take(k + 1), wanted).map_values(numbered));
            }
            k = k + 1;
        }
        assert(all.take(all.len() as int) =~= all);
        entities
    }
}

/// Whether a mesh of this name hides in first person: hair and eyelashes.
pub open spec fn hides_in_first_person(name: Seq<char>) -> bool {
    text::contains_text(text::lower(name), "hair"@) || text::contains_text(
        text::lower(name),
        "eyelash"@,
    )
}

/// Whether a mesh of this name hides in first person.
pub fn is_hidden_in_first_person(name: &str) -> (hidden: bool)
    ensures
        hidden == hides_in_first_person(name@),
{
    let small = text::lower_chars(name);
    text::chars_hold(&small, &text::chars_of("hair")) || text::chars_hold(
        &small,
        &text::chars_of("eyelash"),
    )
}

impl SceneTree {
    /// The places whose entity can be hidden and hides in first person.
    pub open spec fn hair(&self, can_hide: Seq<bool>) -> Set<int> {
        Set::new(
            |i: int|
                can_hide[i] && self.name_at(i) is Some && hides_in_first_person(self.name_at(i)->0),
        )
    }

    /// Lists the entities of the walk from `root` to hide in first person.
    ///
    /// `can_hide` says for each place whether the entity there has a visibility.
    pub fn meshes_to_hide(&self, root: usize, can_hide: &Vec<bool>) -> (entities: Vec<u64>)
        requires
            self.wf(),
            root < self.nodes@.len(),
            can_hide@.len() == self.nodes@.len(),
        ensures
            entities@ == all_of(self.walk(root as int), self.hair(can_hide@)).map_values(
                |i: int| self.nodes@[i].entity,
            ),
    {
        let n: usize = self.nodes.len();
        let mut marked: Vec<bool> = Vec::new();
        let mut i: usize = 0;
        while i < n
            invariant
                i <= n,
                n == self.nodes@.len(),
                can_hide@.len() == n,
                marked@.len() == i,
                forall|j: int|
                    0 <= j < i ==> (#[trigger] marked@[j] <==> self.hair(can_hide@).contains(j)),
            decreases n - i,
        {
            let hide = can_hide[i] && match &self.nodes[i].name {
                Some(name) => is_hidden_in_first_person(name.as_str()),
                None => false,
            };
            marked.push(hide);
            i = i + 1;
        }
        let entities = self.descendants_with(root, &marked);
        proof {
            let order = self.walk(root as int);
            lemma_walk_in_scene(self, root as int);
            lemma_all_of_same(
                order,
                Set::new(|i: int| marked@[i]),
                self.hair(can_hide@),
            );
        }
        entities
    }

    /// The places whose entity is animated and belongs to a mask group.
    pub open spec fn grouped(&self, animated: Seq<bool>) -> Set<int> {
        Set::new(
            |i: int|
                animated[i] && self.name_at(i) is Some && mask_group(stem_of(self.name_at(i)->0))
                    != 0,
        )
    }

    /// Lists the animated bones of the walk from `root` with their mask groups; a bone outside
    /// the groups is left out.
    pub fn bone_mask_groups(&self, root: usize, animated: &Vec<bool>) -> (groups: Vec<(u64, u64)>)
        requires
            self.wf(),
            root < self.nodes@.len(),
            animated@.len() == self.nodes@.len(),
        ensures
            groups@ == all_of(self.walk(root as int), self.grouped(animated@)).map_values(
                |i: int| (self.nodes@[i].entity, mask_group(stem_of(self.name_at(i)->0))),
            ),
    {
        let order = self.descendants(root);
        let ghost all = places(order@);
        let ghost wanted = self.grouped(animated@);
        let ghost labelled = |i: int|
            (self.nodes@[i].entity, mask_group(stem_of(self.name_at(i)->0)));
        let mut groups: Vec<(u64, u64)> = Vec::new();
        let mut k: usize = 0;
        assert(groups@ =~= all_of(all.take(0), wanted).map_values(labelled));
        while k < order.len()
            invariant
                k <= order@.len(),
                all == places(order@),
                all == self.walk(root as int),
                animated@.len() == self.nodes@.len(),
                wanted == self.grouped(animated@),
                labelled == (|i: int|
                    (self.nodes@[i].entity, mask_group(stem_of(self.name_at(i)->0)))),
                forall|j: int| 0 <= j < order@.len() ==> #[trigger] order@[j] < self.nodes@.len(),
                groups@ == all_of(all.take(k as int), wanted).map_values(labelled),
            decreases order@.len() - k,
        {
            let i: usize = order[k];
            proof {
                assert(all[k as int] == i as int);
                assert(all.take(k + 1).drop_last() =~= all.take(k as int));
                assert(all.take(k + 1).last() == i as int);
            }
            if animated[i] {
                match &self.nodes[i].name {
                    Some(name) => {
                        let group: u64 = bone_mask_group(bone_stem(name.as_str()));
                        if group != 0 {
                            groups.push((self.nodes[i].entity, group));
                            assert(groups@ =~= all_of(all.take(k + 1), wanted).map_values(labelled));
                        }
                    },
                    None => {},
                }
            }
            k = k + 1;
        }
        assert(all.take(all.len() as int) =~= all);
        groups
    }
}

proof fn lemma_walk_in_scene(tree: &SceneTree, i: int)
    ensures
        forall|k: int| 0 <= k < tree.walk(i).len() ==> 0 <= #[trigger] tree.walk(i)[k]
            < tree.nodes@.len(),
    decreases tree.nodes@.len() - i, 0nat, 0nat,
{
    if 0 <= i < tree.nodes@.len() {
        let kids = tree.nodes@[i].children@.map_values(|c: usize| c as int);
        lemma_stack_in_scene(tree, kids, i + 1);
        assert forall|k: int| 0 <= k < tree.walk(i).len() implies 0 <= #[trigger] tree.walk(i)[k]
            < tree.nodes@.len() by {
            if k > 0 {
                assert(tree.walk(i)[k] == tree.walk_stack(kids, i + 1)[k - 1]);
            }
        }
    }
}

proof fn lemma_stack_in_scene(tree: &SceneTree, stack: Seq<int>, low: int)
    requires
        low >= 0,
    ensures
        forall|k: int| 0 <= k < tree.walk_stack(stack, low).len() ==> 0 <= #[trigger] tree.walk_stack(
            stack,
            low,
        )[k] < tree.nodes@.len(),
    decreases tree.nodes@.len() - low, 1nat, stack.len(),
{
    if stack.len() > 0 {
        let rest = tree.walk_stack(stack.drop_last(), low);
        lemma_stack_in_scene(tree, stack.drop_last(), low);
        let top = if low <= stack.last() < tree.nodes@.len() {
            lemma_walk_in_scene(tree, stack.last());
            tree.walk(stack.last())
        } else {
            seq![]
        };
        let whole = tree.walk_stack(stack, low);
        assert(whole == top + rest);
        assert forall|k: int| 0 <= k < whole.len() implies 0 <= #[trigger] whole[k]
            < tree.nodes@.len() by {
            if k < top.len() {
                assert(whole[k] == top[k]);
            } else {
                assert(whole[k] == rest[k - top.len()]);
            }
        }
    }
}

/// Sets that agree on a list choose the same of it.
proof fn lemma_all_of_same(order: Seq<int>, a: Set<int>, b: Set<int>)
    requires
        forall|k: int| 0 <= k < order.len() ==> (a.contains(#[trigger] order[k]) <==> b.contains(
            order[k],
        )),
    ensures
        all_of(order, a) == all_of(order, b),
    decreases order.len(),
{
    if order.len() > 0 {
        let rest = order.drop_last();
        assert forall|k: int| 0 <= k < rest.len() implies (a.contains(#[trigger] rest[k])
            <==> b.contains(rest[k])) by {
            assert(rest[k] == order[k]);
        }
        lemma_all_of_same(rest, a, b);
        assert(order[order.len() - 1] == order.last());
    }
}

/// A finger bone under its stem.
pub struct StemmedBone {
    pub stem: String,
    pub entity: u64,
}

/// `bones` with `bone` put behind all that do not come after it by stem.
pub open spec fn put_by_stem(bones: Seq<(Seq<char>, u64)>, bone: (Seq<char>, u64)) -> Seq<
    (Seq<char>, u64),
>
    decreases bones.len(),
{
    if bones.len() > 0 && text::text_less(bone.0, bones.last().0) {
        put_by_stem(bones.drop_last(), bone).push(bones.last())
    } else {
        bones.push(bone)
    }
}

/// `bones` sorted by stem; those of one stem keep their order.
pub open spec fn sorted_by_stem(bones: Seq<(Seq<char>, u64)>) -> Seq<(Seq<char>, u64)>
    decreases bones.len(),
{
    if bones.len() == 0 {
        bones
    } else {
        put_by_stem(sorted_by_stem(bones.drop_last()), bones.last())
    }
}

/// Stems and entities of a list.
pub open spec fn stemmed_views(bones: Seq<StemmedBone>) -> Seq<(Seq<char>, u64)> {
    bones.map_values(|b: StemmedBone| (b.stem@, b.entity))
}

/// Puts `bone` behind all that do not come after it by stem.
fn put_bone(bones: &mut Vec<StemmedBone>, bone: StemmedBone)
    ensures
        stemmed_views(final(bones)@) == put_by_stem(
            stemmed_views(old(bones)@),
            (bone.stem@, bone.entity),
        ),
{
    let ghost before = stemmed_views(bones@);
    let ghost new = (bone.stem@, bone.entity);
    let mut at: usize = bones.len();
    proof {
        assert(before.take(at as int) =~= before);
        assert(before.skip(at as int) =~= seq![]);
        assert(put_by_stem(before, new) =~= put_by_stem(before.take(at as int), new) + before.skip(
            at as int,
        ));
    }
    while at > 0 && text::less(bone.stem.as_str(), bones[at - 1].stem.as_str())
        invariant
            at <= bones@.len(),
            before == stemmed_views(bones@),
            new == (bone.stem@, bone.entity),
            put_by_stem(before, new) == put_by_stem(before.take(at as int), new) + before.skip(
                at as int,
            ),
        decreases at,
    {
        proof {
            let shorter = before.take(at - 1);
            assert(before.take(at as int).drop_last() =~= shorter);
            assert(before.take(at as int).last() == before[at - 1]);
            assert(before[at - 1] == (bones@[at - 1].stem@, bones@[at - 1].entity));
            assert(put_by_stem(shorter, new).push(before[at - 1]) + before.skip(at as int)
                =~= put_by_stem(shorter, new) + before.skip(at - 1));
        }
        at = at - 1;
    }
    proof {
        if at > 0 {
            assert(before.take(at as int).last() == before[at - 1]);
            assert(before[at - 1] == (bones@[at - 1].stem@, bones@[at - 1].entity));
        }
        assert(put_by_stem(before.take(at as int), new) == before.take(at as int).push(new));
    }
    bones.insert(at, bone);
    assert(stemmed_views(bones@) =~= before.take(at as int).push(new) + before.skip(at as int));
}

impl SceneTree {
    /// The places whose entity is a bone of the right index finger.
    pub open spec fn index_finger(&self) -> Set<int> {
        Set::new(
            |i: int|
                self.name_at(i) is Some && text::starts_with(
                    stem_of(self.name_at(i)->0),
                    "RightHandIndex"@,
                ),
        )
    }

    /// The bones of the right index finger below `hand`, in the order of the walk.
    pub open spec fn finger_bones(&self, hand: int) -> Seq<(Seq<char>, u64)> {
        all_of(self.walk(hand), self.index_finger()).map_values(
            |i: int| (stem_of(self.name_at(i)->0), self.nodes@[i].entity),
        )
    }

    /// Lists the bones of the right index finger below `hand` from the palm to the tip: sorted
    /// by stem.
    pub fn collect_index_finger_bones(&self, hand: usize) -> (entities: Vec<u64>)
        requires
            self.wf(),
            hand < self.nodes@.len(),
        ensures
            entities@ == sorted_by_stem(self.finger_bones(hand as int)).map_values(
                |b: (Seq<char>, u64)| b.1,
            ),
    {
        let order = self.descendants(hand);
        let ghost all = places(order@);
        let ghost wanted = self.index_finger();
        let ghost labelled = |i: int| (stem_of(self.name_at(i)->0), self.nodes@[i].entity);
        let mut bones: Vec<StemmedBone> = Vec::new();
        let mut k: usize = 0;
        proof {
            assert(all_of(all.take(0), wanted).map_values(labelled) =~= seq![]);
            assert(stemmed_views(bones@) =~= sorted_by_stem(
                all_of(all.take(0), wanted).map_values(labelled),
            ));
        }
        while k < order.len()
            invariant
                k <= order@.len(),
                all == places(order@),
                all == self.walk(hand as int),
                wanted == self.index_finger(),
                labelled == (|i: int| (stem_of(self.name_at(i)->0), self.nodes@[i].entity)),
                forall|j: int| 0 <= j < order@.len() ==> #[trigger] order@[j] < self.nodes@.len(),
                stemmed_views(bones@) == sorted_by_stem(
                    all_of(all.take(k as int), wanted).map_values(labelled),
                ),
            decreases order@.len() - k,
        {
            let i: usize = order[k];
            proof {
                assert(all[k as int] == i as int);
                assert(all.take(k + 1).drop_last() =~= all.take(k as int));
                assert(all.take(k + 1).last() == i as int);
            }
            match &self.nodes[i].name {
                Some(name) => {
                    let stem = bone_stem(name.as_str());
                    if text::has_prefix(stem, "RightHandIndex") {
                        proof {
                            let sofar = all_of(all.take(k as int), wanted);
                            let more = sofar.push(i as int).map_values(labelled);
                            assert(more.drop_last() =~= sofar.map_values(labelled));
                            assert(more.last() == labelled(i as int));
                        }
                        put_bone(
                            &mut bones,
                            StemmedBone { stem: stem.to_owned(), entity: self.nodes[i].entity },
                        );
                    }
                },
                None => {},
            }
            k = k + 1;
        }
        assert(all.take(all.len() as int) =~= all);
        let mut entities: Vec<u64> = Vec::new();
        let mut j: usize = 0;
        let ghost sorted = stemmed_views(bones@);
        while j < bones.len()
            invariant
                j <= bones@.len(),
                sorted == stemmed_views(bones@),
                entities@ == sorted.map_values(|b: (Seq<char>, u64)| b.1).take(j as int),
            decreases bones@.len() - j,
        {
            entities.push(bones[j].entity);
            proof {
                let ids = sorted.map_values(|b: (Seq<char>, u64)| b.1);
                assert(ids.take(j + 1) =~= ids.take(j as int).push(ids[j as int]));
            }
            j = j + 1;
        }
        proof {
            let ids = sorted.map_values(|b: (Seq<char>, u64)| b.1);
            assert(ids.take(ids.len() as int) =~= ids);
        }
        entities
    }
}

/// Whether no bone comes after one that stands behind it.
pub open spec fn is_sorted_by_stem(bones: Seq<(Seq<char>, u64)>) -> bool {
    forall|i: int, j: int|
        0 <= i < j < bones.len() ==> !text::text_less(
            (#[trigger] bones[j]).0,
            (#[trigger] bones[i]).0,
        )
}

proof fn lemma_put_by_stem(bones: Seq<(Seq<char>, u64)>, bone: (Seq<char>, u64))
    requires
        is_sorted_by_stem(bones),
    ensures
        is_sorted_by_stem(put_by_stem(bones, bone)),
        put_by_stem(bones, bone).to_multiset() == bones.to_multiset().insert(bone),
        put_by_stem(bones, bone).len() == bones.len() + 1,
        forall|k: int|
            0 <= k < put_by_stem(bones, bone).len() ==> {
                let b = #[trigger] put_by_stem(bones, bone)[k];
                b == bone || exists|j: int| 0 <= j < bones.len() && bones[j] == b
            },
    decreases bones.len(),
{
    broadcast use vstd::seq_lib::group_to_multiset_ensures;

    if bones.len() > 0 && text::text_less(bone.0, bones.last().0) {
        let rest = bones.drop_last();
        let last = bones.last();
        assert forall|i: int, j: int| 0 <= i < j < rest.len() implies !text::text_less(
            (#[trigger] rest[j]).0,
            (#[trigger] rest[i]).0,
        ) by {
            assert(rest[i] == bones[i] && rest[j] == bones[j]);
        }
        lemma_put_by_stem(rest, bone);
        let put = put_by_stem(rest, bone);
        let all = put.push(last);
        assert forall|i: int, j: int| 0 <= i < j < all.len() implies !text::text_less(
            (#[trigger] all[j]).0,
            (#[trigger] all[i]).0,
        ) by {
            if j < put.len() {
                assert(all[i] == put[i] && all[j] == put[j]);
            } else {
                let b = put[i];
                if b == bone {
                    text::lemma_less_is_total(bone.0, last.0);
                } else {
                    let m = choose|m: int| 0 <= m < rest.len() && rest[m] == b;
                    assert(bones[m] == b && bones[bones.len() - 1] == last);
                }
            }
        }
        assert(bones =~= rest.push(last));
        assert forall|k: int| 0 <= k < all.len() implies {
            let b = #[trigger] all[k];
            b == bone || exists|j: int| 0 <= j < bones.len() && bones[j] == b
        } by {
            if k < put.len() {
                let b = put[k];
                if b != bone {
                    let m = choose|m: int| 0 <= m < rest.len() && rest[m] == b;
                    assert(bones[m] == b);
                }
            } else {
                assert(bones[bones.len() - 1] == last);
            }
        }
        assert(put_by_stem(bones, bone).to_multiset() =~= bones.to_multiset().insert(bone));
    } else {
        let all = bones.push(bone);
        assert forall|i: int, j: int| 0 <= i < j < all.len() implies !text::text_less(
            (#[trigger] all[j]).0,
            (#[trigger] all[i]).0,
        ) by {
            if j == bones.len() && text::text_less(bone.0, bones[i].0) {
                let last = bones[bones.len() - 1];
                text::lemma_less_is_total(bone.0, last.0);
                text::lemma_less_is_total(bones[i].0, last.0);
                if i < bones.len() - 1 {
                    assert(!text::text_less(last.0, bones[i].0));
                }
                if text::text_less(bones[i].0, last.0) {
                    text::lemma_less_is_transitive(bone.0, bones[i].0, last.0);
                }
            }
        }
        assert forall|k: int| 0 <= k < all.len() implies {
            let b = #[trigger] all[k];
            b == bone || exists|j: int| 0 <= j < bones.len() && bones[j] == b
        } by {
            if k < bones.len() {
                assert(bones[k] == all[k]);
            }
        }
    }
}

/// Sorting by stem keeps every bone and leaves none before one that it follows.
pub proof fn lemma_sorted_by_stem(bones: Seq<(Seq<char>, u64)>)
    ensures
        is_sorted_by_stem(sorted_by_stem(bones)),
        sorted_by_stem(bones).to_multiset() == bones.to_multiset(),
    decreases bones.len(),
{
    broadcast use vstd::seq_lib::group_to_multiset_ensures;

    if bones.len() > 0 {
        lemma_sorted_by_stem(bones.drop_last());
        lemma_put_by_stem(sorted_by_stem(bones.drop_last()), bones.last());
        assert(bones =~= bones.drop_last().push(bones.last()));
    }
}

/// Whether the place `x` is a child of the place `y`.
pub open spec fn child_of(tree: &SceneTree, y: int, x: int) -> bool {
    exists|k: int|
        0 <= k < tree.nodes@[y].children@.len() && #[trigger] tree.nodes@[y].children@[k] == x
}

proof fn lemma_in_both(a: Seq<int>, b: Seq<int>, x: int)
    ensures
        (a + b).contains(x) <==> a.contains(x) || b.contains(x),
{
    if a.contains(x) {
        assert((a + b)[a.index_of(x)] == x);
    }
    if b.contains(x) {
        assert((a + b)[a.len() + b.index_of(x)] == x);
    }
    if (a + b).contains(x) {
        let i = (a + b).index_of(x);
        if i < a.len() {
            assert(a[i] == x);
        } else {
            assert(b[i - a.len()] == x);
        }
    }
}

proof fn lemma_walk_is_closed(tree: &SceneTree, i: int)
    requires
        tree.wf(),
        0 <= i < tree.nodes@.len(),
    ensures
        tree.walk(i).len() > 0,
        tree.walk(i)[0] == i,
        forall|y: int, x: int|
            tree.walk(i).contains(y) && #[trigger] child_of(tree, y, x) ==> tree.walk(i).contains(x),
        forall|x: int| #[trigger]
            tree.walk(i).contains(x) && x != i ==> exists|y: int|
                tree.walk(i).contains(y) && #[trigger] child_of(tree, y, x),
    decreases tree.nodes@.len() - i, 0nat, 0nat,
{
    let kids = tree.nodes@[i].children@.map_values(|c: usize| c as int);
    let below = tree.walk_stack(kids, i + 1);
    let whole = tree.walk(i);
    assert(stack_fits(tree, kids, i + 1)) by {
        assert forall|k: int| 0 <= k < kids.len() implies i + 1 <= #[trigger] kids[k]
            < tree.nodes@.len() by {
            assert(kids[k] == tree.nodes@[i].children@[k]);
        }
    }
    lemma_stack_is_closed(tree, kids, i + 1);
    assert(whole[0] == i);
    assert forall|y: int, x: int|
        whole.contains(y) && #[trigger] child_of(tree, y, x) implies whole.contains(x) by {
        lemma_in_both(seq![i], below, y);
        lemma_in_both(seq![i], below, x);
        if seq![i].contains(y) {
            assert(y == i);
            let k = choose|k: int|
                0 <= k < tree.nodes@[y].children@.len() && #[trigger] tree.nodes@[y].children@[k]
                    == x;
            assert(kids[k] == x);
            assert(kids.contains(x));
        }
    }
    assert forall|x: int| #[trigger] whole.contains(x) && x != i implies exists|y: int|
        whole.contains(y) && #[trigger] child_of(tree, y, x) by {
        lemma_in_both(seq![i], below, x);
        assert(below.contains(x));
        if kids.contains(x) {
            let k = kids.index_of(x);
            assert(tree.nodes@[i].children@[k] == x);
            assert(child_of(tree, i, x));
            assert(whole.contains(i));
        } else {
            let y = choose|y: int| below.contains(y) && #[trigger] child_of(tree, y, x);
            lemma_in_both(seq![i], below, y);
            assert(child_of(tree, y, x));
        }
    }
}

proof fn lemma_stack_is_closed(tree: &SceneTree, stack: Seq<int>, low: int)
    requires
        tree.wf(),
        low >= 0,
        stack_fits(tree, stack, low),
    ensures
        forall|x: int| #[trigger] stack.contains(x) ==> tree.walk_stack(stack, low).contains(x),
        forall|y: int, x: int|
            tree.walk_stack(stack, low).contains(y) && #[trigger] child_of(tree, y, x)
                ==> tree.walk_stack(stack, low).contains(x),
        forall|x: int| #[trigger]
            tree.walk_stack(stack, low).contains(x) && !stack.contains(x) ==> exists|y: int|
                tree.walk_stack(stack, low).contains(y) && #[trigger] child_of(tree, y, x),
    decreases tree.nodes@.len() - low, 1nat, stack.len(),
{
    if stack.len() > 0 {
        let last = stack[stack.len() - 1];
        let fewer = stack.drop_last();
        assert(stack_fits(tree, fewer, low)) by {
            assert forall|k: int| 0 <= k < fewer.len() implies low <= #[trigger] fewer[k]
                < tree.nodes@.len() by {
                assert(fewer[k] == stack[k]);
            }
        }
        let top = tree.walk(last);
        let rest = tree.walk_stack(fewer, low);
        let whole = tree.walk_stack(stack, low);
        lemma_walk_is_closed(tree, last);
        lemma_stack_is_closed(tree, fewer, low);
        assert(whole == top + rest);
        assert forall|x: int| #[trigger] stack.contains(x) implies whole.contains(x) by {
            lemma_in_both(top, rest, x);
            let k = stack.index_of(x);
            if k == stack.len() - 1 {
                assert(top[0] == x);
            } else {
                assert(fewer[k] == x);
                assert(fewer.contains(x));
            }
        }
        assert forall|y: int, x: int|
            whole.contains(y) && #[trigger] child_of(tree, y, x) implies whole.contains(x) by {
            lemma_in_both(top, rest, y);
            lemma_in_both(top, rest, x);
        }
        assert forall|x: int| #[trigger] whole.contains(x) && !stack.contains(x) implies exists|
            y: int,
        |
            whole.contains(y) && #[trigger] child_of(tree, y, x) by {
            lemma_in_both(top, rest, x);
            assert(stack.contains(last));
            if top.contains(x) {
                let y = choose|y: int| top.contains(y) && #[trigger] child_of(tree, y, x);
                lemma_in_both(top, rest, y);
                assert(child_of(tree, y, x));
            } else {
                if fewer.contains(x) {
                    assert(stack[fewer.index_of(x)] == x);
                }
                let y = choose|y: int| rest.contains(y) && #[trigger] child_of(tree, y, x);
                lemma_in_both(top, rest, y);
                assert(child_of(tree, y, x));
            }
        }
    }
}

/// A walk starts at its root, meets every child of what it meets, and meets nothing but children of
/// what it meets.
pub proof fn lemma_walks_meet_all_below(tree: SceneTree, root: usize, order: Vec<usize>)
    requires
        tree.wf(),
        root < tree.nodes@.len(),
        call_ensures(SceneTree::descendants, (&tree, root), order),
    ensures
        ({
            let met = places(order@);
            &&& met.len() > 0 && met[0] == root
            &&& forall|y: int, x: int|
                met.contains(y) && #[trigger] child_of(&tree, y, x) ==> met.contains(x)
            &&& forall|x: int| #[trigger]
                met.contains(x) && x != root ==> exists|y: int|
                    met.contains(y) && #[trigger] child_of(&tree, y, x)
        }),
{
    lemma_walk_is_closed(&tree, root as int);
}

/// After a node its last child comes first, with all below it, then the others back to the first
/// child.
pub proof fn lemma_walks_take_the_last_child_first(tree: SceneTree, root: usize, order: Vec<usize>)
    requires
        tree.wf(),
        root < tree.nodes@.len(),
        call_ensures(SceneTree::descendants, (&tree, root), order),
    ensures
        ({
            let kids = tree.nodes@[root as int].children@;
            &&& kids.len() == 0 ==> order@.len() == 1
            &&& kids.len() > 0 ==> order@.len() > 1 && order@[1] == kids[kids.len() - 1]
        }),
{
    let kids = tree.nodes@[root as int].children@;
    let stack = kids.map_values(|c: usize| c as int);
    let met = places(order@);
    let low = root + 1;
    assert(met.len() == order@.len());
    assert(met == seq![root as int] + tree.walk_stack(stack, low));
    if kids.len() > 0 {
        let last = stack[stack.len() - 1];
        assert(last == kids[kids.len() - 1]);
        assert(root < kids[kids.len() - 1] < tree.nodes@.len());
        lemma_walk_is_closed(&tree, last);
        let below = tree.walk_stack(stack, low);
        assert(below == tree.walk(last) + tree.walk_stack(stack.drop_last(), low));
        assert(met[1] == below[0]);
        assert(order@[1] as int == met[1]);
    } else {
        assert(stack =~= seq![]);
    }
}

proof fn lemma_first_of_is_first(order: Seq<int>, wanted: Set<int>)
    ensures
        first_of(order, wanted) is Some <==> exists|k: int|
            0 <= k < order.len() && wanted.contains(#[trigger] order[k]),
        first_of(order, wanted) matches Some(i) ==> exists|k: int|
            0 <= k < order.len() && order[k] == i && wanted.contains(i) && forall|j: int|
                0 <= j < k ==> !wanted.contains(#[trigger] order[j]),
    decreases order.len(),
{
    if order.len() > 0 {
        if wanted.contains(order[0]) {
            assert(order[0] == first_of(order, wanted)->0);
        } else {
            let rest = order.skip(1);
            lemma_first_of_is_first(rest, wanted);
            if first_of(rest, wanted) is Some {
                let i = first_of(rest, wanted)->0;
                let k = choose|k: int|
                    0 <= k < rest.len() && rest[k] == i && wanted.contains(i) && forall|j: int|
                        0 <= j < k ==> !wanted.contains(#[trigger] rest[j]);
                assert(order[k + 1] == i);
                assert forall|j: int| 0 <= j < k + 1 implies !wanted.contains(
                    #[trigger] order[j],
                ) by {
                    if j > 0 {
                        assert(rest[j - 1] == order[j]);
                    }
                }
            } else if exists|k: int| 0 <= k < order.len() && wanted.contains(#[trigger] order[k]) {
                let k = choose|k: int| 0 <= k < order.len() && wanted.contains(#[trigger] order[k]);
                assert(rest[k - 1] == order[k]);
            }
        }
    }
}

/// Of the entities of a name, the one that a walk meets first is found; if it meets none, none is.
pub proof fn lemma_the_first_of_a_name_is_found(
    tree: SceneTree,
    root: usize,
    name: &str,
    order: Vec<usize>,
    entity: Option<u64>,
)
    requires
        call_ensures(SceneTree::descendants, (&tree, root), order),
        call_ensures(SceneTree::find_descendant_by_name, (&tree, root, name), entity),
    ensures
        entity is None <==> forall|k: int|
            0 <= k < order@.len() ==> tree.name_at(#[trigger] order@[k] as int) != Some(name@),
        entity matches Some(e) ==> exists|k: int|
            0 <= k < order@.len() && tree.name_at(#[trigger] order@[k] as int) == Some(name@)
                && tree.nodes@[order@[k] as int].entity == e && forall|j: int|
                0 <= j < k ==> tree.name_at(#[trigger] order@[j] as int) != Some(name@),
{
    let met = places(order@);
    lemma_first_of_is_first(met, tree.named(name@));
    assert forall|k: int| 0 <= k < order@.len() implies met[k] == #[trigger] order@[k] as int by {}
    if entity is Some {
        let i = first_of(met, tree.named(name@))->0;
        let k = choose|k: int|
            0 <= k < met.len() && met[k] == i && tree.named(name@).contains(i) && forall|j: int|
                0 <= j < k ==> !tree.named(name@).contains(#[trigger] met[j]);
        assert(order@[k] as int == i);
        assert forall|j: int| 0 <= j < k implies tree.name_at(#[trigger] order@[j] as int) != Some(
            name@,
        ) by {
            assert(!tree.named(name@).contains(met[j]));
        }
    } else {
        assert forall|k: int| 0 <= k < order@.len() implies tree.name_at(
            #[trigger] order@[k] as int,
        ) != Some(name@) by {
            assert(!tree.named(name@).contains(met[k]));
        }
    }
}

/// The same of the stem of a name.
pub proof fn lemma_the_first_of_a_stem_is_found(
    tree: SceneTree,
    root: usize,
    stem: &str,
    order: Vec<usize>,
    entity: Option<u64>,
)
    requires
        call_ensures(SceneTree::descendants, (&tree, root), order),
        call_ensures(SceneTree::find_descendant_by_bone_stem, (&tree, root, stem), entity),
    ensures
        entity is None <==> forall|k: int|
            0 <= k < order@.len() ==> !tree.stemmed(stem@).contains(#[trigger] order@[k] as int),
        entity matches Some(e) ==> exists|k: int|
            0 <= k < order@.len() && tree.stemmed(stem@).contains(#[trigger] order@[k] as int)
                && tree.nodes@[order@[k] as int].entity == e && forall|j: int|
                0 <= j < k ==> !tree.stemmed(stem@).contains(#[trigger] order@[j] as int),
{
    let met = places(order@);
    let wanted = tree.stemmed(stem@);
    lemma_first_of_is_first(met, wanted);
    assert forall|k: int| 0 <= k < order@.len() implies met[k] == #[trigger] order@[k] as int by {}
    if entity is Some {
        let i = first_of(met, wanted)->0;
        let k = choose|k: int|
            0 <= k < met.len() && met[k] == i && wanted.contains(i) && forall|j: int|
                0 <= j < k ==> !wanted.contains(#[trigger] met[j]);
        assert(order@[k] as int == i);
        assert forall|j: int| 0 <= j < k implies !wanted.contains(#[trigger] order@[j] as int) by {
            assert(!wanted.contains(met[j]));
        }
    } else {
        assert forall|k: int| 0 <= k < order@.len() implies !wanted.contains(
            #[trigger] order@[k] as int,
        ) by {
            assert(!wanted.contains(met[k]));
        }
    }
}

proof fn lemma_all_of_members(order: Seq<int>, wanted: Set<int>, x: int)
    ensures
        all_of(order, wanted).contains(x) <==> order.contains(x) && wanted.contains(x),
    decreases order.len(),
{
    if order.len() > 0 {
        let rest = order.drop_last();
        let last = order.last();
        let chosen = all_of(rest, wanted);
        lemma_all_of_members(rest, wanted, x);
        if rest.contains(x) {
            assert(order[rest.index_of(x)] == x);
        }
        if order.contains(x) && x != last {
            let i = order.index_of(x);
            assert(rest[i] == x);
        }
        if x == last {
            assert(order[order.len() - 1] == x);
        }
        if wanted.contains(last) {
            let all = chosen.push(last);
            if chosen.contains(x) {
                assert(all[chosen.index_of(x)] == x);
            }
            if x == last {
                assert(all[chosen.len() as int] == x);
            }
            if all.contains(x) && x != last {
                let i = all.index_of(x);
                assert(chosen[i] == x);
            }
        }
    }
}

/// Just the marked entities that a walk meets are listed.
pub proof fn lemma_marked_entities_are_listed(
    tree: SceneTree,
    root: usize,
    marked: Vec<bool>,
    order: Vec<usize>,
    entities: Vec<u64>,
    e: u64,
)
    requires
        call_ensures(SceneTree::descendants, (&tree, root), order),
        call_ensures(SceneTree::descendants_with, (&tree, root, &marked), entities),
    ensures
        entities@.contains(e) <==> exists|k: int|
            0 <= k < order@.len() && marked@[#[trigger] order@[k] as int]
                && tree.nodes@[order@[k] as int].entity == e,
{
    lemma_chosen_entities(tree, order@, Set::new(|i: int| marked@[i]), entities@, e);
}

proof fn lemma_chosen_entities(
    tree: SceneTree,
    order: Seq<usize>,
    wanted: Set<int>,
    entities: Seq<u64>,
    e: u64,
)
    requires
        entities == all_of(places(order), wanted).map_values(|i: int| tree.nodes@[i].entity),
    ensures
        entities.contains(e) <==> exists|k: int|
            0 <= k < order.len() && wanted.contains(#[trigger] order[k] as int)
                && tree.nodes@[order[k] as int].entity == e,
{
    let met = places(order);
    let chosen = all_of(met, wanted);
    if entities.contains(e) {
        let i = entities.index_of(e);
        let x = chosen[i];
        assert(chosen.contains(x));
        lemma_all_of_members(met, wanted, x);
        let k = met.index_of(x);
        assert(order[k] as int == x);
    }
    if exists|k: int|
        0 <= k < order.len() && wanted.contains(#[trigger] order[k] as int)
            && tree.nodes@[order[k] as int].entity == e {
        let k = choose|k: int|
            0 <= k < order.len() && wanted.contains(#[trigger] order[k] as int)
                && tree.nodes@[order[k] as int].entity == e;
        let x = order[k] as int;
        assert(met[k] == x);
        assert(met.contains(x));
        lemma_all_of_members(met, wanted, x);
        let i = chosen.index_of(x);
        assert(entities[i] == e);
    }
}

/// Just the entities that a walk meets, that can be hidden and whose name speaks of hair or
/// eyelashes are hidden.
pub proof fn lemma_hair_is_hidden(
    tree: SceneTree,
    root: usize,
    can_hide: Vec<bool>,
    order: Vec<usize>,
    entities: Vec<u64>,
    e: u64,
)
    requires
        call_ensures(SceneTree::descendants, (&tree, root), order),
        call_ensures(SceneTree::meshes_to_hide, (&tree, root, &can_hide), entities),
    ensures
        entities@.contains(e) <==> exists|k: int|
            0 <= k < order@.len() && can_hide@[#[trigger] order@[k] as int] && tree.name_at(
                order@[k] as int,
            ) is Some && hides_in_first_person(tree.name_at(order@[k] as int)->0)
                && tree.nodes@[order@[k] as int].entity == e,
{
    let wanted = tree.hair(can_hide@);
    lemma_chosen_entities(tree, order@, wanted, entities@, e);
    if entities@.contains(e) {
        let k = choose|k: int|
            0 <= k < order@.len() && wanted.contains(#[trigger] order@[k] as int)
                && tree.nodes@[order@[k] as int].entity == e;
        assert(can_hide@[order@[k] as int]);
    }
    if exists|k: int|
        0 <= k < order@.len() && can_hide@[#[trigger] order@[k] as int] && tree.name_at(
            order@[k] as int,
        ) is Some && hides_in_first_person(tree.name_at(order@[k] as int)->0)
            && tree.nodes@[order@[k] as int].entity == e {
        let k = choose|k: int|
            0 <= k < order@.len() && can_hide@[#[trigger] order@[k] as int] && tree.name_at(
                order@[k] as int,
            ) is Some && hides_in_first_person(tree.name_at(order@[k] as int)->0)
                && tree.nodes@[order@[k] as int].entity == e;
        assert(wanted.contains(order@[k] as int));
    }
}

/// A name speaks of hair or eyelashes in small as in capital letters, wherever it does.
pub proof fn lemma_hair_by_any_name(name: &str, hidden: bool, chars: Vec<char>, at: int)
    requires
        call_ensures(is_hidden_in_first_person, (name,), hidden),
        call_ensures(text::lower_chars, (name,), chars),
    ensures
        0 <= at && at + 4 <= chars@.len() && chars@.subrange(at, at + 4) == "hair"@ ==> hidden,
        0 <= at && at + 7 <= chars@.len() && chars@.subrange(at, at + 7) == "eyelash"@ ==> hidden,
        hidden ==> exists|i: int| text::occurs_at(chars@, "hair"@, i) || text::occurs_at(
            chars@,
            "eyelash"@,
            i,
        ),
{
    reveal_strlit("hair");
    reveal_strlit("eyelash");
    if 0 <= at && at + 4 <= chars@.len() && chars@.subrange(at, at + 4) == "hair"@ {
        assert(text::occurs_at(chars@, "hair"@, at));
    }
    if 0 <= at && at + 7 <= chars@.len() && chars@.subrange(at, at + 7) == "eyelash"@ {
        assert(text::occurs_at(chars@, "eyelash"@, at));
    }
}

/// Just the animated bones that a walk meets and that belong to a part of the body are listed, each
/// with the mask of that part.
pub proof fn lemma_bones_get_the_mask_of_their_part(
    tree: SceneTree,
    root: usize,
    animated: Vec<bool>,
    order: Vec<usize>,
    groups: Vec<(u64, u64)>,
    e: u64,
    group: u64,
)
    requires
        call_ensures(SceneTree::descendants, (&tree, root), order),
        call_ensures(SceneTree::bone_mask_groups, (&tree, root, &animated), groups),
    ensures
        groups@.contains((e, group)) <==> group != 0 && exists|k: int|
            0 <= k < order@.len() && animated@[#[trigger] order@[k] as int] && tree.name_at(
                order@[k] as int,
            ) is Some && mask_group(stem_of(tree.name_at(order@[k] as int)->0)) == group
                && tree.nodes@[order@[k] as int].entity == e,
{
    let met = places(order@);
    let wanted = tree.grouped(animated@);
    let chosen = all_of(met, wanted);
    if groups@.contains((e, group)) {
        let i = groups@.index_of((e, group));
        let x = chosen[i];
        assert(chosen.contains(x));
        lemma_all_of_members(met, wanted, x);
        let k = met.index_of(x);
        assert(order@[k] as int == x);
    }
    if group != 0 && exists|k: int|
        0 <= k < order@.len() && animated@[#[trigger] order@[k] as int] && tree.name_at(
            order@[k] as int,
        ) is Some && mask_group(stem_of(tree.name_at(order@[k] as int)->0)) == group
            && tree.nodes@[order@[k] as int].entity == e {
        let k = choose|k: int|
            0 <= k < order@.len() && animated@[#[trigger] order@[k] as int] && tree.name_at(
                order@[k] as int,
            ) is Some && mask_group(stem_of(tree.name_at(order@[k] as int)->0)) == group
                && tree.nodes@[order@[k] as int].entity == e;
        let x = order@[k] as int;
        assert(met[k] == x);
        assert(met.contains(x));
        assert(wanted.contains(x));
        lemma_all_of_members(met, wanted, x);
        let i = chosen.index_of(x);
        assert(groups@[i] == (e, group));
    }
}

/// The bones of the index finger are those below the hand whose stem starts with its name, from the
/// palm to the tip: no stem stands behind one that comes after it.
pub proof fn lemma_fingers_go_from_palm_to_tip(
    tree: SceneTree,
    hand: usize,
    order: Vec<usize>,
    entities: Vec<u64>,
    e: u64,
)
    requires
        call_ensures(SceneTree::descendants, (&tree, hand), order),
        call_ensures(SceneTree::collect_index_finger_bones, (&tree, hand), entities),
    ensures
        exists|bones: Seq<(Seq<char>, u64)>|
            {
                &&& #[trigger] is_sorted_by_stem(bones)
                &&& entities@ == bones.map_values(|b: (Seq<char>, u64)| b.1)
                &&& bones.to_multiset() == tree.finger_bones(hand as int).to_multiset()
            },
        (exists|b: (Seq<char>, u64)| #[trigger] tree.finger_bones(hand as int).contains(b) && b.1 == e)
            <==> exists|k: int|
            0 <= k < order@.len() && tree.name_at(#[trigger] order@[k] as int) is Some
                && text::starts_with(
                stem_of(tree.name_at(order@[k] as int)->0),
                "RightHandIndex"@,
            ) && tree.nodes@[order@[k] as int].entity == e,
{
    let all = tree.finger_bones(hand as int);
    lemma_sorted_by_stem(all);
    assert(is_sorted_by_stem(sorted_by_stem(all)));
    let met = places(order@);
    let wanted = tree.index_finger();
    let chosen = all_of(met, wanted);
    if exists|b: (Seq<char>, u64)| #[trigger] all.contains(b) && b.1 == e {
        let b = choose|b: (Seq<char>, u64)| #[trigger] all.contains(b) && b.1 == e;
        let i = all.index_of(b);
        let x = chosen[i];
        assert(chosen.contains(x));
        lemma_all_of_members(met, wanted, x);
        let k = met.index_of(x);
        assert(order@[k] as int == x);
    }
    if exists|k: int|
        0 <= k < order@.len() && tree.name_at(#[trigger] order@[k] as int) is Some
            && text::starts_with(
            stem_of(tree.name_at(order@[k] as int)->0),
            "RightHandIndex"@,
        ) && tree.nodes@[order@[k] as int].entity == e {
        let k = choose|k: int|
            0 <= k < order@.len() && tree.name_at(#[trigger] order@[k] as int) is Some
                && text::starts_with(
                stem_of(tree.name_at(order@[k] as int)->0),
                "RightHandIndex"@,
            ) && tree.nodes@[order@[k] as int].entity == e;
        let x = order@[k] as int;
        assert(met[k] == x);
        assert(met.contains(x));
        lemma_all_of_members(met, wanted, x);
        let i = chosen.index_of(x);
        assert(all[i].1 == e);
        assert(all.contains(all[i]));
    }
}

} // verus!
