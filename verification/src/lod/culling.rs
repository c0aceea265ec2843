//! Which meshes show, and which octants their children cover.

use vstd::prelude::*;
use vstd::string::*;
use crate::path_map::{lemma_take_next, Path, PathMap};
use super::model::{is_octant, octant_char};
use super::state::LodState;

verus! {

/// Whether a mesh is drawn.
#[derive(Clone, Copy, Debug, PartialEq, Eq, Structural)]
pub enum MeshVisibility {
    /// As its parent entity is.
    Inherited,
    /// Never.
    Hidden,
    /// Always.
    Visible,
}

/// What to change about a mesh.
#[derive(Clone, Copy, Debug, PartialEq, Eq, Structural)]
pub struct CullOutcome {
    /// The visibility to set, if it changes.
    pub visibility: Option<MeshVisibility>,
    /// The octant mask to write to the material, if it changes.
    pub octant_mask: Option<u32>,
}

/// Whether the bit of `octant` is set in `mask`.
pub open spec fn has_bit(mask: u8, octant: int) -> bool {
    (mask >> (octant as u8)) & 1u8 == 1u8
}

/// Whether `mask` has the bits of exactly those octants in which `p` has a child in `nodes`.
pub open spec fn masks(mask: u8, nodes: Set<Path>, p: Path) -> bool {
    forall|o: int| 0 <= o < 8 ==> (#[trigger] has_bit(mask, o) <==> nodes.contains(p.push(octant_char(o))))
}

/// The mask that a table has for `p`; 0 if it has none.
pub open spec fn mask_at(table: Map<Path, u8>, p: Path) -> u8 {
    if table.contains_key(p) {
        table[p]
    } else {
        0
    }
}

proof fn lemma_bit_set(mask: u8, octant: u8, other: u8)
    by (bit_vector)
    requires
        octant < 8,
        other < 8,
    ensures
        ((mask | (1u8 << octant)) >> other) & 1u8 == if other == octant {
            1u8
        } else {
            (mask >> other) & 1u8
        },
{
}

proof fn lemma_no_bits(octant: u8)
    by (bit_vector)
    requires
        octant < 8,
    ensures
        (0u8 >> octant) & 1u8 == 0u8,
{
}

proof fn lemma_all_bits(mask: u8)
    by (bit_vector)
    ensures
        ((mask >> 0u8) & 1u8 == 1u8 && (mask >> 1u8) & 1u8 == 1u8 && (mask >> 2u8) & 1u8 == 1u8 && (
        mask >> 3u8) & 1u8 == 1u8 && (mask >> 4u8) & 1u8 == 1u8 && (mask >> 5u8) & 1u8 == 1u8 && (
        mask >> 6u8) & 1u8 == 1u8 && (mask >> 7u8) & 1u8 == 1u8) <==> mask == 0xffu8,
{
}

/// A mask is full exactly if all eight children are there.
pub proof fn lemma_full_mask(mask: u8, nodes: Set<Path>, p: Path)
    requires
        masks(mask, nodes, p),
    ensures
        mask == 0xff <==> forall|o: int| 0 <= o < 8 ==> nodes.contains(p.push(#[trigger] octant_char(o))),
{
    lemma_all_bits(mask);
    assert(has_bit(mask, 0) <==> nodes.contains(p.push(octant_char(0))));
    assert(has_bit(mask, 1) <==> nodes.contains(p.push(octant_char(1))));
    assert(has_bit(mask, 2) <==> nodes.contains(p.push(octant_char(2))));
    assert(has_bit(mask, 3) <==> nodes.contains(p.push(octant_char(3))));
    assert(has_bit(mask, 4) <==> nodes.contains(p.push(octant_char(4))));
    assert(has_bit(mask, 5) <==> nodes.contains(p.push(octant_char(5))));
    assert(has_bit(mask, 6) <==> nodes.contains(p.push(octant_char(6))));
    assert(has_bit(mask, 7) <==> nodes.contains(p.push(octant_char(7))));
}

impl<O, D> LodState<O, D> {
    /// Builds the octant mask of every node that has a loaded child.
    pub fn octant_masks(&self) -> (table: PathMap<u8>)
        ensures
            forall|p: Path| masks(#[trigger] mask_at(table@, p), self.loaded_nodes@, p),
    {
        let n: usize = self.loaded_nodes.len();
        let ghost keys = self.loaded_nodes.keys();
        let mut table: PathMap<u8> = PathMap::new();
        let mut i: usize = 0;
        proof {
            assert forall|p: Path| masks(
                #[trigger] mask_at(table@, p),
                keys.take(0).to_set(),
                p,
            ) by {
                assert forall|o: int| 0 <= o < 8 implies (#[trigger] has_bit(mask_at(table@, p), o)
                    <==> keys.take(0).to_set().contains(p.push(octant_char(o)))) by {
                    lemma_no_bits(o as u8);
                }
            }
        }
        while i < n
            invariant
                i <= n,
                n == keys.len(),
                keys == self.loaded_nodes.keys(),
                forall|p: Path|
                    masks(#[trigger] mask_at(table@, p), keys.take(i as int).to_set(), p),
            decreases n - i,
        {
            let key = self.loaded_nodes.key_at(i);
            let ghost before = table@;
            let ghost done = keys.take(i as int).to_set();
            let ghost more = keys.take(i + 1).to_set();
            proof {
                lemma_take_next(keys, i as int);
            }
            let len: usize = key.as_str().unicode_len();
            if len > 0 {
                let last: char = key.as_str().get_char(len - 1);
                let parent = key.as_str().substring_char(0, len - 1);
                assert(key@ =~= parent@.push(last));
                if '0' <= last && last <= '7' {
                    let octant: u8 = (last as u32 - 48) as u8;
                    let mask: u8 = match table.get(parent) {
                        Some(known) => *known,
                        None => 0,
                    };
                    table.insert(parent.to_owned(), mask | (1u8 << octant));
                    proof {
                        assert(octant_char(octant as int) == last);
                        assert forall|p: Path| masks(#[trigger] mask_at(table@, p), more, p) by {
                            assert(masks(mask_at(before, p), done, p));
                            assert forall|o: int| 0 <= o < 8 implies (#[trigger] has_bit(
                                mask_at(table@, p),
                                o,
                            ) <==> more.contains(p.push(octant_char(o)))) by {
                                assert(has_bit(mask_at(before, p), o) <==> done.contains(
                                    p.push(octant_char(o)),
                                ));
                                let q = p.push(octant_char(o));
                                assert(q.drop_last() =~= p && q.last() == octant_char(o));
                                assert(key@.drop_last() =~= parent@ && key@.last() == last);
                                if p == parent@ {
                                    lemma_bit_set(mask, octant, o as u8);
                                }
                            }
                        }
                    }
                } else {
                    proof {
                        lemma_not_a_child(keys, i as int, table@);
                    }
                }
            } else {
                proof {
                    lemma_not_a_child(keys, i as int, table@);
                }
            }
            i = i + 1;
        }
        proof {
            assert(keys.take(n as int) =~= keys);
            assert(self.loaded_nodes@ =~= keys.to_set());
        }
        table
    }
}

/// A path that is no octant's child changes no mask.
proof fn lemma_not_a_child(keys: Seq<Path>, i: int, table: Map<Path, u8>)
    requires
        0 <= i < keys.len(),
        keys[i].len() == 0 || !is_octant(keys[i].last()),
        forall|p: Path| masks(#[trigger] mask_at(table, p), keys.take(i).to_set(), p),
    ensures
        forall|p: Path| masks(#[trigger] mask_at(table, p), keys.take(i + 1).to_set(), p),
{
    lemma_take_next(keys, i);
    assert forall|p: Path| masks(#[trigger] mask_at(table, p), keys.take(i + 1).to_set(), p) by {
        assert(masks(mask_at(table, p), keys.take(i).to_set(), p));
        assert forall|o: int| 0 <= o < 8 implies (#[trigger] has_bit(mask_at(table, p), o)
            <==> keys.take(i + 1).to_set().contains(p.push(octant_char(o)))) by {
            assert(p.push(octant_char(o)).last() == octant_char(o));
            assert(has_bit(mask_at(table, p), o) <==> keys.take(i).to_set().contains(
                p.push(octant_char(o)),
            ));
        }
    }
}

/// The visibility that a mesh should have.
pub open spec fn wanted_visibility(in_frustum: bool, force_visible: bool, mask: u8) -> MeshVisibility {
    if (!in_frustum && !force_visible) || mask == 0xff {
        MeshVisibility::Hidden
    } else {
        MeshVisibility::Inherited
    }
}

/// Decides about one mesh.
///
/// A mesh out of view is hidden, unless the camera is so near that it must show. A mesh in view
/// is hidden only if its eight children cover it, and its material learns which octants they do.
/// `uniform` is the mask that the material has now, if the material is loaded.
pub fn cull_mesh(
    in_frustum: bool,
    force_visible: bool,
    mask: u8,
    current: MeshVisibility,
    uniform: Option<u32>,
) -> (outcome: CullOutcome)
    ensures
        ({
            let wanted = wanted_visibility(in_frustum, force_visible, mask);
            &&& outcome.visibility == if current == wanted {
                None
            } else {
                Some(wanted)
            }
            &&& outcome.octant_mask == if (in_frustum || force_visible) && uniform is Some
                && uniform->0 != mask as u32 {
                Some(mask as u32)
            } else {
                None
            }
        }),
{
    if !in_frustum && !force_visible {
        let visibility = if current == MeshVisibility::Hidden {
            None
        } else {
            Some(MeshVisibility::Hidden)
        };
        return CullOutcome { visibility, octant_mask: None };
    }
    let desired = if mask == 0xff {
        MeshVisibility::Hidden
    } else {
        MeshVisibility::Inherited
    };
    let visibility = if current == desired {
        None
    } else {
        Some(desired)
    };
    let octant_mask = match uniform {
        Some(old_mask) if old_mask != mask as u32 => Some(mask as u32),
        _ => None,
    };
    CullOutcome { visibility, octant_mask }
}

proof fn lemma_missing_bit(mask: u8, octant: u8)
    by (bit_vector)
    requires
        octant < 8,
        (mask >> octant) & 1u8 == 0u8,
    ensures
        mask != 0xffu8,
{
}

/// The visibility of a mesh after a decision about it.
pub open spec fn shown_as(outcome: CullOutcome, current: MeshVisibility) -> MeshVisibility {
    match outcome.visibility {
        Some(visibility) => visibility,
        None => current,
    }
}

/// Terrain in view has no holes: a mesh in view, or so near that it must show, is drawn as long as
/// the mask lacks any octant.
pub proof fn lemma_no_octant_is_lost(
    in_frustum: bool,
    force_visible: bool,
    mask: u8,
    current: MeshVisibility,
    uniform: Option<u32>,
    outcome: CullOutcome,
    octant: u8,
)
    requires
        call_ensures(cull_mesh, (in_frustum, force_visible, mask, current, uniform), outcome),
        in_frustum || force_visible,
        octant < 8,
        (mask >> octant) & 1u8 == 0u8,
    ensures
        shown_as(outcome, current) is Inherited,
{
    lemma_missing_bit(mask, octant);
}

/// No octant is drawn twice: a mesh whose eight octants are all in the mask is hidden, and so is
/// one out of view that need not show, whose material is then left alone.
pub proof fn lemma_covered_meshes_are_hidden(
    in_frustum: bool,
    force_visible: bool,
    mask: u8,
    current: MeshVisibility,
    uniform: Option<u32>,
    outcome: CullOutcome,
)
    requires
        call_ensures(cull_mesh, (in_frustum, force_visible, mask, current, uniform), outcome),
    ensures
        (forall|octant: u8| octant < 8 ==> #[trigger] (mask >> octant) & 1u8 == 1u8) ==> shown_as(
            outcome,
            current,
        ) is Hidden,
        !in_frustum && !force_visible ==> shown_as(outcome, current) is Hidden
            && outcome.octant_mask is None,
{
    if forall|octant: u8| octant < 8 ==> #[trigger] (mask >> octant) & 1u8 == 1u8 {
        assert((mask >> 0u8) & 1u8 == 1u8);
        assert((mask >> 1u8) & 1u8 == 1u8);
        assert((mask >> 2u8) & 1u8 == 1u8);
        assert((mask >> 3u8) & 1u8 == 1u8);
        assert((mask >> 4u8) & 1u8 == 1u8);
        assert((mask >> 5u8) & 1u8 == 1u8);
        assert((mask >> 6u8) & 1u8 == 1u8);
        assert((mask >> 7u8) & 1u8 == 1u8);
        lemma_all_bits(mask);
    }
}

/// The material of a mesh in view knows the mask after the decision; nothing is written that is so
/// already, and no mesh is forced to show regardless of its parent.
pub proof fn lemma_materials_know_the_mask(
    in_frustum: bool,
    force_visible: bool,
    mask: u8,
    current: MeshVisibility,
    uniform: Option<u32>,
    outcome: CullOutcome,
)
    requires
        call_ensures(cull_mesh, (in_frustum, force_visible, mask, current, uniform), outcome),
    ensures
        uniform is None ==> outcome.octant_mask is None,
        in_frustum || force_visible ==> (uniform matches Some(known) ==> match outcome.octant_mask {
            Some(written) => written == mask,
            None => known == mask,
        }),
        outcome.octant_mask is Some ==> outcome.octant_mask != uniform,
        outcome.visibility != Some(current),
        outcome.visibility != Some(MeshVisibility::Visible),
{
}

/// With the masks of the loaded nodes, a mesh in view is drawn in every octant in which its node
/// has no loaded child, and hidden once all eight children are loaded.
pub proof fn lemma_missing_children_are_drawn<O, D>(
    state: LodState<O, D>,
    table: PathMap<u8>,
    p: Path,
    in_frustum: bool,
    force_visible: bool,
    current: MeshVisibility,
    uniform: Option<u32>,
    outcome: CullOutcome,
)
    requires
        call_ensures(LodState::<O, D>::octant_masks, (&state,), table),
        call_ensures(
            cull_mesh,
            (
                in_frustum,
                force_visible,
                if table@.contains_key(p) {
                    table@[p]
                } else {
                    0
                },
                current,
                uniform,
            ),
            outcome,
        ),
        in_frustum || force_visible,
    ensures
        shown_as(outcome, current) is Hidden <==> forall|c: char|
            '0' <= c <= '7' ==> state.loaded_nodes@.contains(#[trigger] p.push(c)),
        shown_as(outcome, current) is Hidden || shown_as(outcome, current) is Inherited,
{
    let mask = mask_at(table@, p);
    let nodes = state.loaded_nodes@;
    assert(masks(mask, nodes, p));
    lemma_full_mask(mask, nodes, p);
    if forall|c: char| '0' <= c <= '7' ==> nodes.contains(#[trigger] p.push(c)) {
        assert forall|o: int| 0 <= o < 8 implies nodes.contains(p.push(#[trigger] octant_char(o))) by {
            assert('0' <= octant_char(o) <= '7');
        }
    } else {
        let c = choose|c: char| '0' <= c <= '7' && !nodes.contains(#[trigger] p.push(c));
        let o = c as int - '0' as int;
        assert(octant_char(o) == c);
    }
}

} // verus!
