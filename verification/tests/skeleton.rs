use veldera::bones::{LOWER_BODY_MASK, UPPER_BODY_MASK};
use veldera::ragdoll::{
    ragdoll_edge, BoneRegion, JointClass, Pose, RagdollBone, RagdollEdge, RagdollGraph,
    RagdolledBone, RAGDOLL_BONES,
};
use veldera::skeleton::{is_hidden_in_first_person, SceneNode, SceneTree};
use veldera::wav::samples_to_wav_bytes;

fn node(entity: u64, name: &str, children: &[usize]) -> SceneNode {
    let name = if name.is_empty() { None } else { Some(name.to_string()) };
    SceneNode { entity, name, children: children.to_vec() }
}

#[test]
fn the_last_child_is_walked_first() {
    let tree = SceneTree {
        nodes: vec![
            node(10, "a", &[1, 2]),
            node(11, "b", &[3]),
            node(12, "c", &[]),
            node(13, "d", &[]),
        ],
    };
    assert_eq!(tree.descendants(0), vec![0, 2, 1, 3]);
    assert_eq!(tree.descendants(1), vec![1, 3]);
}

#[test]
fn of_two_bones_the_first_on_the_walk_is_found() {
    let tree = SceneTree {
        nodes: vec![
            node(10, "", &[1, 2]),
            node(11, "x:Head", &[]),
            node(12, "y:Head", &[]),
        ],
    };
    assert_eq!(tree.find_descendant_by_bone_stem(0, "Head"), Some(12));
    assert_eq!(tree.find_descendant_by_name(0, "x:Head"), Some(11));
    assert_eq!(tree.find_descendant_by_name(0, "Head"), None);
    assert_eq!(tree.find_descendant_with(0, &vec![false, true, false]), Some(11));
    assert_eq!(tree.find_descendant_with(0, &vec![false; 3]), None);
    assert_eq!(tree.descendants_with(0, &vec![true; 3]), vec![10, 12, 11]);
}

#[test]
fn hair_and_eyelashes_are_hidden() {
    assert!(is_hidden_in_first_person("Ch31_Hair"));
    assert!(is_hidden_in_first_person("left_EYELASHES"));
    assert!(!is_hidden_in_first_person("Ch31_Body"));
    let tree = SceneTree {
        nodes: vec![node(1, "root", &[1, 2]), node(2, "hair", &[]), node(3, "HAIR2", &[])],
    };
    assert_eq!(tree.meshes_to_hide(0, &vec![true, true, false]), vec![2]);
}

#[test]
fn bones_fall_into_mask_groups() {
    let tree = SceneTree {
        nodes: vec![
            node(1, "rig:Hips", &[1, 2, 3]),
            node(2, "rig:Spine", &[]),
            node(3, "rig:Tail", &[]),
            node(4, "rig:LeftFoot", &[]),
        ],
    };
    assert_eq!(
        tree.bone_mask_groups(0, &vec![true; 4]),
        vec![(1, LOWER_BODY_MASK), (4, LOWER_BODY_MASK), (2, UPPER_BODY_MASK)]
    );
    assert_eq!(tree.bone_mask_groups(0, &vec![false; 4]), vec![]);
}

#[test]
fn finger_bones_run_from_palm_to_tip() {
    let tree = SceneTree {
        nodes: vec![
            node(1, "rig:RightHand", &[1, 4]),
            node(2, "rig:RightHandIndex1", &[2]),
            node(3, "rig:RightHandIndex2", &[3]),
            node(4, "rig:RightHandIndex3", &[]),
            node(5, "rig:RightHandThumb1", &[]),
        ],
    };
    assert_eq!(tree.collect_index_finger_bones(0), vec![2, 3, 4]);
}

/// A skeleton whose bones hang one below the other in the order of the table.
fn pose() -> Pose {
    let n = RAGDOLL_BONES;
    let nodes = (0..n)
        .map(|i| {
            let children = if i + 1 < n { vec![i + 1] } else { vec![] };
            let name = format!("rig:{}", RagdollBone::from_place(i).stem());
            SceneNode { entity: 100 + i as u64, name: Some(name), children }
        })
        .collect();
    Pose { tree: SceneTree { nodes }, root: 0, placed: vec![true; n], finite: vec![true; n] }
}

#[test]
fn a_whole_skeleton_goes_limp() {
    let plan = pose().build_ragdoll_graph().unwrap();
    assert_eq!(plan.bodies.len(), RAGDOLL_BONES);
    assert_eq!(plan.joints.len(), plan.bodies.iter().filter(|b| !b.kinematic).count());
    for body in &plan.bodies {
        assert_eq!(body.kinematic, body.bone.is_torso());
    }
    for joint in &plan.joints {
        assert_eq!(joint.child.parent(), Some(joint.parent));
        assert_eq!(joint.class, joint.child.joint_class());
    }
}

#[test]
fn without_hips_or_neck_nothing_goes_limp() {
    for missing in [RagdollBone::Hips, RagdollBone::Neck] {
        let mut pose = pose();
        pose.placed[missing.to_place()] = false;
        assert!(pose.build_ragdoll_graph().is_none());
    }
}

#[test]
fn a_missing_hand_costs_its_body_and_its_joint() {
    let mut pose = pose();
    pose.placed[RagdollBone::LeftHand.to_place()] = false;
    let plan = pose.build_ragdoll_graph().unwrap();
    assert_eq!(plan.bodies.len(), RAGDOLL_BONES - 1);
    assert!(plan.joints.iter().all(|j| j.child != RagdollBone::LeftHand));
}

#[test]
fn bones_have_their_tables() {
    for i in 0..RAGDOLL_BONES {
        assert_eq!(RagdollBone::from_place(i).to_place(), i);
    }
    assert_eq!(RagdollBone::LeftForeArm.parent(), Some(RagdollBone::LeftArm));
    assert_eq!(RagdollBone::Hips.parent(), None);
    assert_eq!(RagdollBone::LeftUpLeg.capsule_target(), Some(RagdollBone::LeftLeg));
    assert_eq!(RagdollBone::LeftUpLeg.region(), BoneRegion::Leg);
    assert_eq!(RagdollBone::LeftUpLeg.joint_class(), JointClass::Proximal);
    assert_eq!(RagdollBone::RightHand.stem(), "RightHand");
}

#[test]
fn ragdolls_are_built_and_torn_down_at_the_edges() {
    assert_eq!(ragdoll_edge(true, false, true), RagdollEdge::Build);
    assert_eq!(ragdoll_edge(true, true, false), RagdollEdge::TearDown);
    assert_eq!(ragdoll_edge(true, true, true), RagdollEdge::Keep);
    assert_eq!(ragdoll_edge(true, false, false), RagdollEdge::Keep);
    assert_eq!(ragdoll_edge(false, false, true), RagdollEdge::Keep);
    assert_eq!(ragdoll_edge(false, true, false), RagdollEdge::Keep);
}

#[test]
fn limbs_are_posed_against_their_parents() {
    let bone = |bone, bone_entity, physics_entity| RagdolledBone { bone, bone_entity, physics_entity };
    let graph = RagdollGraph {
        bones: vec![
            bone(RagdollBone::Hips, 1, 51),
            bone(RagdollBone::LeftUpLeg, 2, 52),
            bone(RagdollBone::LeftLeg, 3, 53),
        ],
        joints: vec![71, 72],
    };
    assert_eq!(graph.pose_against(0, Some(2)), None);
    assert_eq!(graph.pose_against(1, Some(1)), Some(51));
    assert_eq!(graph.pose_against(2, Some(2)), Some(52));
    assert_eq!(graph.pose_against(2, Some(9)), None);
    assert_eq!(graph.pose_against(2, None), None);
    assert_eq!(graph.teardown(), vec![71, 72, 51, 52, 53]);
}

#[test]
fn samples_get_a_header() {
    let wav = samples_to_wav_bytes(48_000, &[1, -2]);
    assert_eq!(wav.len(), 48);
    assert_eq!(&wav[0..4], b"RIFF");
    assert_eq!(wav[4..8], 40u32.to_le_bytes());
    assert_eq!(&wav[8..16], b"WAVEfmt ");
    assert_eq!(wav[16..20], 16u32.to_le_bytes());
    assert_eq!(wav[20..24], [1, 0, 1, 0]);
    assert_eq!(wav[24..28], 48_000u32.to_le_bytes());
    assert_eq!(wav[28..32], 96_000u32.to_le_bytes());
    assert_eq!(wav[32..36], [2, 0, 16, 0]);
    assert_eq!(&wav[36..40], b"data");
    assert_eq!(wav[40..44], 4u32.to_le_bytes());
    assert_eq!(wav[44..48], [1, 0, 0xfe, 0xff]);
    assert_eq!(samples_to_wav_bytes(1, &[]).len(), 44);
}
