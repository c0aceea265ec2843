use veldera::bones::{bone_mask_group, bone_stem, LOWER_BODY_MASK, UPPER_BODY_MASK};

#[test]
fn stem_drops_the_rig_prefix() {
    assert_eq!(bone_stem("mixamorig9:Hips"), "Hips");
    assert_eq!(bone_stem("a:b:LeftHand"), "LeftHand");
    assert_eq!(bone_stem("Plain"), "Plain");
    assert_eq!(bone_stem("trailing:"), "");
}

#[test]
fn mask_groups_split_the_body() {
    assert_eq!(bone_mask_group("Hips"), LOWER_BODY_MASK);
    assert_eq!(bone_mask_group("LeftUpLeg"), LOWER_BODY_MASK);
    assert_eq!(bone_mask_group("Spine2"), UPPER_BODY_MASK);
    assert_eq!(bone_mask_group("RightHandIndex1"), UPPER_BODY_MASK);
    assert_eq!(bone_mask_group("Tail"), 0);
}
