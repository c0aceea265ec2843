//! Bone names and the animation mask groups that they belong to.

use vstd::prelude::*;
use crate::text;

verus! {

/// Pelvis bone, the root of the lower-body chain.
pub const BONE_HIPS: &'static str = "Hips";

/// Base of the skull.
pub const BONE_HEAD: &'static str = "Head";

/// Top-of-skull marker bone.
pub const BONE_HEAD_TOP_END: &'static str = "HeadTop_End";

/// Upper right arm.
pub const BONE_RIGHT_ARM: &'static str = "RightArm";

/// Lower right arm.
pub const BONE_RIGHT_FORE_ARM: &'static str = "RightForeArm";

/// Right hand.
pub const BONE_RIGHT_HAND: &'static str = "RightHand";

/// Neck bone.
pub const BONE_NECK: &'static str = "Neck";

/// Mask bit of the upper-body bones: spine and above.
pub const UPPER_BODY_MASK: u64 = 1;

/// Mask bit of the lower-body bones: hips and below.
pub const LOWER_BODY_MASK: u64 = 2;

/// The part of a bone name behind its last colon: the name without the rig's prefix.
pub open spec fn stem_of(name: Seq<char>) -> Seq<char> {
    text::after_last(name, ":"@)
}

/// Strips the rig's prefix from a bone name; a name without a colon stays as it is.
pub fn bone_stem(name: &str) -> (stem: &str)
    ensures
        stem@ == stem_of(name@),
{
    text::rest_after_last(name, ":")
}

/// Whether the stem names a bone from the hips down.
pub open spec fn is_lower_body(stem: Seq<char>) -> bool {
    ||| stem == "Hips"@
    ||| text::ends_with(stem, "UpLeg"@)
    ||| text::ends_with(stem, "Leg"@)
    ||| text::ends_with(stem, "Foot"@)
    ||| text::ends_with(stem, "ToeBase"@)
    ||| text::ends_with(stem, "Toe_End"@)
}

/// Whether the stem names a finger bone.
pub open spec fn is_finger(stem: Seq<char>) -> bool {
    ||| text::contains_text(stem, "HandThumb"@)
    ||| text::contains_text(stem, "HandIndex"@)
    ||| text::contains_text(stem, "HandMiddle"@)
    ||| text::contains_text(stem, "HandRing"@)
    ||| text::contains_text(stem, "HandPinky"@)
}

/// Whether the stem names a bone of the spine, the head, an arm or a hand.
pub open spec fn is_upper_body(stem: Seq<char>) -> bool {
    ||| text::starts_with(stem, "Spine"@)
    ||| stem == "Neck"@
    ||| stem == "Head"@
    ||| stem == "HeadTop_End"@
    ||| text::ends_with(stem, "Shoulder"@)
    ||| text::ends_with(stem, "Arm"@)
    ||| text::ends_with(stem, "Hand"@)
    ||| is_finger(stem)
}

/// The mask group of a bone: lower body before upper body, 0 for an unknown bone.
pub open spec fn mask_group(stem: Seq<char>) -> u64 {
    if is_lower_body(stem) {
        LOWER_BODY_MASK
    } else if is_upper_body(stem) {
        UPPER_BODY_MASK
    } else {
        0
    }
}

/// The mask group of a bone stem; 0 if every clip moves the bone.
pub fn bone_mask_group(stem: &str) -> (group: u64)
    ensures
        group == mask_group(stem@),
{
    if text::same_text(stem, "Hips") || text::has_suffix(stem, "UpLeg") || text::has_suffix(
        stem,
        "Leg",
    ) || text::has_suffix(stem, "Foot") || text::has_suffix(stem, "ToeBase") || text::has_suffix(
        stem,
        "Toe_End",
    ) {
        return LOWER_BODY_MASK;
    }
    let finger = text::has_text(stem, "HandThumb") || text::has_text(stem, "HandIndex")
        || text::has_text(stem, "HandMiddle") || text::has_text(stem, "HandRing") || text::has_text(
        stem,
        "HandPinky",
    );
    if text::has_prefix(stem, "Spine") || text::same_text(stem, "Neck") || text::same_text(
        stem,
        "Head",
    ) || text::same_text(stem, "HeadTop_End") || text::has_suffix(stem, "Shoulder")
        || text::has_suffix(stem, "Arm") || text::has_suffix(stem, "Hand") || finger {
        return UPPER_BODY_MASK;
    }
    0
}

/// A stem holds no colon.
pub proof fn lemma_stem_has_no_colon(name: Seq<char>)
    ensures
        !stem_of(name).contains(':'),
{
    reveal_strlit(":");
    let n = name.len() as int;
    text::lemma_last_occurrence(name, ":"@, n);
    let at = text::last_occurrence(name, ":"@, n);
    let stem = stem_of(name);
    if stem.contains(':') {
        let i = stem.index_of(':');
        let j = if at < 0 { i } else { at + 1 + i };
        assert(name[j] == ':');
        assert(name.subrange(j, j + 1) =~= ":"@);
        assert(text::occurs_at(name, ":"@, j));
    }
}

/// Taking the stem twice is taking it once.
pub proof fn lemma_stem_of_stem(name: Seq<char>)
    ensures
        stem_of(stem_of(name)) == stem_of(name),
{
    reveal_strlit(":");
    let stem = stem_of(name);
    lemma_stem_has_no_colon(name);
    text::lemma_last_occurrence(stem, ":"@, stem.len() as int);
    let at = text::last_occurrence(stem, ":"@, stem.len() as int);
    if at >= 0 {
        assert(stem.subrange(at, at + 1)[0] == ':');
        assert(stem[at] == ':');
    }
}

/// A stem is what follows the last colon of a name: put behind the rest of the name, it gives the
/// name back.
pub proof fn lemma_names_end_with_their_stem(name: &str, stem: &str)
    requires
        call_ensures(bone_stem, (name,), stem),
    ensures
        !stem@.contains(':'),
        !name@.contains(':') ==> stem@ == name@,
        name@.contains(':') ==> exists|prefix: Seq<char>| name@ == #[trigger] prefix.push(':')
            + stem@,
{
    reveal_strlit(":");
    lemma_stem_has_no_colon(name@);
    let n = name@.len() as int;
    text::lemma_last_occurrence(name@, ":"@, n);
    let at = text::last_occurrence(name@, ":"@, n);
    if at >= 0 {
        assert(name@.subrange(at, at + 1)[0] == ':');
        let prefix = name@.take(at);
        assert(name@ =~= prefix.push(':') + stem@);
        assert(name@[at] == ':');
    } else if name@.contains(':') {
        let i = name@.index_of(':');
        assert(name@.subrange(i, i + 1) =~= ":"@);
        assert(text::occurs_at(name@, ":"@, i));
    }
}

/// The hips and all that ends like a leg, a foot or a toe belong to the lower body.
pub proof fn lemma_legs_belong_to_the_lower_body(stem: &str, side: Seq<char>, group: u64)
    requires
        call_ensures(bone_mask_group, (stem,), group),
        ({
            ||| stem@ == "Hips"@
            ||| stem@ == side + "UpLeg"@
            ||| stem@ == side + "Leg"@
            ||| stem@ == side + "Foot"@
            ||| stem@ == side + "ToeBase"@
            ||| stem@ == side + "Toe_End"@
        }),
    ensures
        group == 2,
{
    lemma_ends(side, "UpLeg"@);
    lemma_ends(side, "Leg"@);
    lemma_ends(side, "Foot"@);
    lemma_ends(side, "ToeBase"@);
    lemma_ends(side, "Toe_End"@);
}

proof fn lemma_ends(side: Seq<char>, end: Seq<char>)
    ensures
        text::ends_with(side + end, end),
{
    assert((side + end).skip(side.len() as int) =~= end);
}

/// The spine, the neck, the head and all that ends like a shoulder, an arm or a hand, or names a
/// finger, belong to the upper body, unless they belong to the lower one.
pub proof fn lemma_arms_belong_to_the_upper_body(
    stem: &str,
    side: Seq<char>,
    rest: Seq<char>,
    group: u64,
)
    requires
        call_ensures(bone_mask_group, (stem,), group),
        ({
            ||| stem@ == "Spine"@ + rest
            ||| stem@ == "Neck"@
            ||| stem@ == "Head"@
            ||| stem@ == "HeadTop_End"@
            ||| stem@ == side + "Shoulder"@
            ||| stem@ == side + "Arm"@
            ||| stem@ == side + "Hand"@
            ||| stem@ == side + "HandThumb"@ + rest
            ||| stem@ == side + "HandIndex"@ + rest
            ||| stem@ == side + "HandMiddle"@ + rest
            ||| stem@ == side + "HandRing"@ + rest
            ||| stem@ == side + "HandPinky"@ + rest
        }),
    ensures
        group == 1 || group == 2,
        group == 2 ==> stem@ == "Hips"@ || text::ends_with(stem@, "Leg"@) || text::ends_with(
            stem@,
            "Foot"@,
        ) || text::ends_with(stem@, "ToeBase"@) || text::ends_with(stem@, "Toe_End"@),
{
    assert(("Spine"@ + rest).take("Spine"@.len() as int) =~= "Spine"@);
    lemma_ends(side, "Shoulder"@);
    lemma_ends(side, "Arm"@);
    lemma_ends(side, "Hand"@);
    lemma_holds(side, "HandThumb"@, rest);
    lemma_holds(side, "HandIndex"@, rest);
    lemma_holds(side, "HandMiddle"@, rest);
    lemma_holds(side, "HandRing"@, rest);
    lemma_holds(side, "HandPinky"@, rest);
    if text::ends_with(stem@, "UpLeg"@) {
        reveal_strlit("UpLeg");
        reveal_strlit("Leg");
        let n = stem@.len();
        assert(stem@.skip(n - 3) =~= stem@.skip(n - 5).skip(2));
        assert("UpLeg"@.skip(2) =~= "Leg"@);
    }
}

proof fn lemma_holds(side: Seq<char>, part: Seq<char>, rest: Seq<char>)
    ensures
        text::contains_text(side + part + rest, part),
{
    let whole = side + part + rest;
    let at = side.len() as int;
    assert(whole.subrange(at, at + part.len()) =~= part);
    assert(text::occurs_at(whole, part, at));
}

} // verus!
