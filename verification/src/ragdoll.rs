//! The ragdoll: which bones get a rigid body, how they hang together, and when.
//!
//! The torso is kinematic and rides the controller; arms and legs are dynamic and hang off it
//! by joints.

use vstd::prelude::*;
use crate::bones::{bone_stem, stem_of};
use crate::skeleton::{places, SceneTree};
use crate::text;

verus! {

/// The bones that get a rigid body, each behind its parent.
///
/// The head is not among them: it is hidden by a scale of zero, which no rigid body can take.
#[derive(Clone, Copy, Debug, PartialEq, Eq, Structural)]
pub enum RagdollBone {
    Hips,
    Spine,
    Spine1,
    Spine2,
    Neck,
    LeftShoulder,
    LeftArm,
    LeftForeArm,
    LeftHand,
    RightShoulder,
    RightArm,
    RightForeArm,
    RightHand,
    LeftUpLeg,
    LeftLeg,
    LeftFoot,
    RightUpLeg,
    RightLeg,
    RightFoot,
}

/// The number of bones that get a rigid body.
pub const RAGDOLL_BONES: usize = 19;

/// Which radius a bone's collider has.
#[derive(Clone, Copy, Debug, PartialEq, Eq, Structural)]
pub enum BoneRegion {
    Torso,
    Leg,
    Arm,
    Shoulder,
    /// Hands, feet and the neck.
    Leaf,
}

/// Which limits the joint above a bone has.
#[derive(Clone, Copy, Debug, PartialEq, Eq, Structural)]
pub enum JointClass {
    /// Upper arms and thighs.
    Proximal,
    /// Forearms and shins.
    Mid,
    /// Everything else.
    Extremity,
}

impl RagdollBone {
    /// The bone at place `i` of the table.
    pub open spec fn at(i: int) -> RagdollBone {
        if i == 0 {
            RagdollBone::Hips
        } else if i == 1 {
            RagdollBone::Spine
        } else if i == 2 {
            RagdollBone::Spine1
        } else if i == 3 {
            RagdollBone::Spine2
        } else if i == 4 {
            RagdollBone::Neck
        } else if i == 5 {
            RagdollBone::LeftShoulder
        } else if i == 6 {
            RagdollBone::LeftArm
        } else if i == 7 {
            RagdollBone::LeftForeArm
        } else if i == 8 {
            RagdollBone::LeftHand
        } else if i == 9 {
            RagdollBone::RightShoulder
        } else if i == 10 {
            RagdollBone::RightArm
        } else if i == 11 {
            RagdollBone::RightForeArm
        } else if i == 12 {
            RagdollBone::RightHand
        } else if i == 13 {
            RagdollBone::LeftUpLeg
        } else if i == 14 {
            RagdollBone::LeftLeg
        } else if i == 15 {
            RagdollBone::LeftFoot
        } else if i == 16 {
            RagdollBone::RightUpLeg
        } else if i == 17 {
            RagdollBone::RightLeg
        } else {
            RagdollBone::RightFoot
        }
    }

    /// The place of the bone in the table.
    pub open spec fn place(self) -> int {
        match self {
            RagdollBone::Hips => 0,
            RagdollBone::Spine => 1,
            RagdollBone::Spine1 => 2,
            RagdollBone::Spine2 => 3,
            RagdollBone::Neck => 4,
            RagdollBone::LeftShoulder => 5,
            RagdollBone::LeftArm => 6,
            RagdollBone::LeftForeArm => 7,
            RagdollBone::LeftHand => 8,
            RagdollBone::RightShoulder => 9,
            RagdollBone::RightArm => 10,
            RagdollBone::RightForeArm => 11,
            RagdollBone::RightHand => 12,
            RagdollBone::LeftUpLeg => 13,
            RagdollBone::LeftLeg => 14,
            RagdollBone::LeftFoot => 15,
            RagdollBone::RightUpLeg => 16,
            RagdollBone::RightLeg => 17,
            RagdollBone::RightFoot => 18,
        }
    }

    /// The bone's stem.
    pub open spec fn text(self) -> Seq<char> {
        match self {
            RagdollBone::Hips => "Hips"@,
            RagdollBone::Spine => "Spine"@,
            RagdollBone::Spine1 => "Spine1"@,
            RagdollBone::Spine2 => "Spine2"@,
            RagdollBone::Neck => "Neck"@,
            RagdollBone::LeftShoulder => "LeftShoulder"@,
            RagdollBone::LeftArm => "LeftArm"@,
            RagdollBone::LeftForeArm => "LeftForeArm"@,
            RagdollBone::LeftHand => "LeftHand"@,
            RagdollBone::RightShoulder => "RightShoulder"@,
            RagdollBone::RightArm => "RightArm"@,
            RagdollBone::RightForeArm => "RightForeArm"@,
            RagdollBone::RightHand => "RightHand"@,
            RagdollBone::LeftUpLeg => "LeftUpLeg"@,
            RagdollBone::LeftLeg => "LeftLeg"@,
            RagdollBone::LeftFoot => "LeftFoot"@,
            RagdollBone::RightUpLeg => "RightUpLeg"@,
            RagdollBone::RightLeg => "RightLeg"@,
            RagdollBone::RightFoot => "RightFoot"@,
        }
    }

    /// The bone that this one hangs off.
    pub open spec fn parent_of(self) -> Option<RagdollBone> {
        match self {
            RagdollBone::Hips => None,
            RagdollBone::Spine => Some(RagdollBone::Hips),
            RagdollBone::Spine1 => Some(RagdollBone::Spine),
            RagdollBone::Spine2 => Some(RagdollBone::Spine1),
            RagdollBone::Neck => Some(RagdollBone::Spine2),
            RagdollBone::LeftShoulder => Some(RagdollBone::Spine2),
            RagdollBone::LeftArm => Some(RagdollBone::LeftShoulder),
            RagdollBone::LeftForeArm => Some(RagdollBone::LeftArm),
            RagdollBone::LeftHand => Some(RagdollBone::LeftForeArm),
            RagdollBone::RightShoulder => Some(RagdollBone::Spine2),
            RagdollBone::RightArm => Some(RagdollBone::RightShoulder),
            RagdollBone::RightForeArm => Some(RagdollBone::RightArm),
            RagdollBone::RightHand => Some(RagdollBone::RightForeArm),
            RagdollBone::LeftUpLeg => Some(RagdollBone::Hips),
            RagdollBone::LeftLeg => Some(RagdollBone::LeftUpLeg),
            RagdollBone::LeftFoot => Some(RagdollBone::LeftLeg),
            RagdollBone::RightUpLeg => Some(RagdollBone::Hips),
            RagdollBone::RightLeg => Some(RagdollBone::RightUpLeg),
            RagdollBone::RightFoot => Some(RagdollBone::RightLeg),
        }
    }

    /// Whether the bone is part of the kinematic torso: spine, shoulders and neck.
    pub open spec fn in_torso(self) -> bool {
        match self {
            RagdollBone::Hips => true,
            RagdollBone::Spine => true,
            RagdollBone::Spine1 => true,
            RagdollBone::Spine2 => true,
            RagdollBone::LeftShoulder => true,
            RagdollBone::RightShoulder => true,
            RagdollBone::Neck => true,
            _ => false,
        }
    }

    /// The bone that this bone's capsule runs to; a bone without one has a sphere.
    pub open spec fn capsule_end(self) -> Option<RagdollBone> {
        match self {
            RagdollBone::Hips => Some(RagdollBone::Spine),
            RagdollBone::Spine => Some(RagdollBone::Spine1),
            RagdollBone::Spine1 => Some(RagdollBone::Spine2),
            RagdollBone::Spine2 => Some(RagdollBone::Neck),
            RagdollBone::LeftShoulder => Some(RagdollBone::LeftArm),
            RagdollBone::LeftArm => Some(RagdollBone::LeftForeArm),
            RagdollBone::LeftForeArm => Some(RagdollBone::LeftHand),
            RagdollBone::RightShoulder => Some(RagdollBone::RightArm),
            RagdollBone::RightArm => Some(RagdollBone::RightForeArm),
            RagdollBone::RightForeArm => Some(RagdollBone::RightHand),
            RagdollBone::LeftUpLeg => Some(RagdollBone::LeftLeg),
            RagdollBone::LeftLeg => Some(RagdollBone::LeftFoot),
            RagdollBone::RightUpLeg => Some(RagdollBone::RightLeg),
            RagdollBone::RightLeg => Some(RagdollBone::RightFoot),
            _ => None,
        }
    }

    /// The region whose radius the bone's collider has.
    pub open spec fn region_of(self) -> BoneRegion {
        match self {
            RagdollBone::Hips => BoneRegion::Torso,
            RagdollBone::Spine => BoneRegion::Torso,
            RagdollBone::Spine1 => BoneRegion::Torso,
            RagdollBone::Spine2 => BoneRegion::Torso,
            RagdollBone::LeftShoulder => BoneRegion::Shoulder,
            RagdollBone::LeftArm => BoneRegion::Arm,
            RagdollBone::LeftForeArm => BoneRegion::Arm,
            RagdollBone::RightShoulder => BoneRegion::Shoulder,
            RagdollBone::RightArm => BoneRegion::Arm,
            RagdollBone::RightForeArm => BoneRegion::Arm,
            RagdollBone::LeftUpLeg => BoneRegion::Leg,
            RagdollBone::LeftLeg => BoneRegion::Leg,
            RagdollBone::RightUpLeg => BoneRegion::Leg,
            RagdollBone::RightLeg => BoneRegion::Leg,
            _ => BoneRegion::Leaf,
        }
    }

    /// The class whose limits the joint above the bone has.
    pub open spec fn joint_class_of(self) -> JointClass {
        match self {
            RagdollBone::LeftArm => JointClass::Proximal,
            RagdollBone::LeftForeArm => JointClass::Mid,
            RagdollBone::RightArm => JointClass::Proximal,
            RagdollBone::RightForeArm => JointClass::Mid,
            RagdollBone::LeftUpLeg => JointClass::Proximal,
            RagdollBone::LeftLeg => JointClass::Mid,
            RagdollBone::RightUpLeg => JointClass::Proximal,
            RagdollBone::RightLeg => JointClass::Mid,
            _ => JointClass::Extremity,
        }
    }

    /// The bone at place `i` of the table.
    pub fn from_place(i: usize) -> (bone: RagdollBone)
        requires
            i < RAGDOLL_BONES,
        ensures
            bone == RagdollBone::at(i as int),
            bone.place() == i,
    {
        match i {
            0 => RagdollBone::Hips,
            1 => RagdollBone::Spine,
            2 => RagdollBone::Spine1,
            3 => RagdollBone::Spine2,
            4 => RagdollBone::Neck,
            5 => RagdollBone::LeftShoulder,
            6 => RagdollBone::LeftArm,
            7 => RagdollBone::LeftForeArm,
            8 => RagdollBone::LeftHand,
            9 => RagdollBone::RightShoulder,
            10 => RagdollBone::RightArm,
            11 => RagdollBone::RightForeArm,
            12 => RagdollBone::RightHand,
            13 => RagdollBone::LeftUpLeg,
            14 => RagdollBone::LeftLeg,
            15 => RagdollBone::LeftFoot,
            16 => RagdollBone::RightUpLeg,
            17 => RagdollBone::RightLeg,
            _ => RagdollBone::RightFoot,
        }
    }

    /// The place of the bone in the table.
    pub fn to_place(self) -> (i: usize)
        ensures
            i == self.place(),
            i < RAGDOLL_BONES,
    {
        match self {
            RagdollBone::Hips => 0,
            RagdollBone::Spine => 1,
            RagdollBone::Spine1 => 2,
            RagdollBone::Spine2 => 3,
            RagdollBone::Neck => 4,
            RagdollBone::LeftShoulder => 5,
            RagdollBone::LeftArm => 6,
            RagdollBone::LeftForeArm => 7,
            RagdollBone::LeftHand => 8,
            RagdollBone::RightShoulder => 9,
            RagdollBone::RightArm => 10,
            RagdollBone::RightForeArm => 11,
            RagdollBone::RightHand => 12,
            RagdollBone::LeftUpLeg => 13,
            RagdollBone::LeftLeg => 14,
            RagdollBone::LeftFoot => 15,
            RagdollBone::RightUpLeg => 16,
            RagdollBone::RightLeg => 17,
            RagdollBone::RightFoot => 18,
        }
    }

    /// The bone's stem.
    pub fn stem(self) -> (stem: &'static str)
        ensures
            stem@ == self.text(),
    {
        match self {
            RagdollBone::Hips => "Hips",
            RagdollBone::Spine => "Spine",
            RagdollBone::Spine1 => "Spine1",
            RagdollBone::Spine2 => "Spine2",
            RagdollBone::Neck => "Neck",
            RagdollBone::LeftShoulder => "LeftShoulder",
            RagdollBone::LeftArm => "LeftArm",
            RagdollBone::LeftForeArm => "LeftForeArm",
            RagdollBone::LeftHand => "LeftHand",
            RagdollBone::RightShoulder => "RightShoulder",
            RagdollBone::RightArm => "RightArm",
            RagdollBone::RightForeArm => "RightForeArm",
            RagdollBone::RightHand => "RightHand",
            RagdollBone::LeftUpLeg => "LeftUpLeg",
            RagdollBone::LeftLeg => "LeftLeg",
            RagdollBone::LeftFoot => "LeftFoot",
            RagdollBone::RightUpLeg => "RightUpLeg",
            RagdollBone::RightLeg => "RightLeg",
            RagdollBone::RightFoot => "RightFoot",
        }
    }

    /// The bone that this one hangs off.
    pub fn parent(self) -> (parent: Option<RagdollBone>)
        ensures
            parent == self.parent_of(),
    {
        match self {
            RagdollBone::Hips => None,
            RagdollBone::Spine => Some(RagdollBone::Hips),
            RagdollBone::Spine1 => Some(RagdollBone::Spine),
            RagdollBone::Spine2 => Some(RagdollBone::Spine1),
            RagdollBone::Neck => Some(RagdollBone::Spine2),
            RagdollBone::LeftShoulder => Some(RagdollBone::Spine2),
            RagdollBone::LeftArm => Some(RagdollBone::LeftShoulder),
            RagdollBone::LeftForeArm => Some(RagdollBone::LeftArm),
            RagdollBone::LeftHand => Some(RagdollBone::LeftForeArm),
            RagdollBone::RightShoulder => Some(RagdollBone::Spine2),
            RagdollBone::RightArm => Some(RagdollBone::RightShoulder),
            RagdollBone::RightForeArm => Some(RagdollBone::RightArm),
            RagdollBone::RightHand => Some(RagdollBone::RightForeArm),
            RagdollBone::LeftUpLeg => Some(RagdollBone::Hips),
            RagdollBone::LeftLeg => Some(RagdollBone::LeftUpLeg),
            RagdollBone::LeftFoot => Some(RagdollBone::LeftLeg),
            RagdollBone::RightUpLeg => Some(RagdollBone::Hips),
            RagdollBone::RightLeg => Some(RagdollBone::RightUpLeg),
            RagdollBone::RightFoot => Some(RagdollBone::RightLeg),
        }
    }

    /// Whether the bone is part of the kinematic torso.
    pub fn is_torso(self) -> (yes: bool)
        ensures
            yes == self.in_torso(),
    {
        match self {
            RagdollBone::Hips => true,
            RagdollBone::Spine => true,
            RagdollBone::Spine1 => true,
            RagdollBone::Spine2 => true,
            RagdollBone::LeftShoulder => true,
            RagdollBone::RightShoulder => true,
            RagdollBone::Neck => true,
            _ => false,
        }
    }

    /// The bone that this bone's capsule runs to.
    pub fn capsule_target(self) -> (target: Option<RagdollBone>)
        ensures
            target == self.capsule_end(),
    {
        match self {
            RagdollBone::Hips => Some(RagdollBone::Spine),
            RagdollBone::Spine => Some(RagdollBone::Spine1),
            RagdollBone::Spine1 => Some(RagdollBone::Spine2),
            RagdollBone::Spine2 => Some(RagdollBone::Neck),
            RagdollBone::LeftShoulder => Some(RagdollBone::LeftArm),
            RagdollBone::LeftArm => Some(RagdollBone::LeftForeArm),
            RagdollBone::LeftForeArm => Some(RagdollBone::LeftHand),
            RagdollBone::RightShoulder => Some(RagdollBone::RightArm),
            RagdollBone::RightArm => Some(RagdollBone::RightForeArm),
            RagdollBone::RightForeArm => Some(RagdollBone::RightHand),
            RagdollBone::LeftUpLeg => Some(RagdollBone::LeftLeg),
            RagdollBone::LeftLeg => Some(RagdollBone::LeftFoot),
            RagdollBone::RightUpLeg => Some(RagdollBone::RightLeg),
            RagdollBone::RightLeg => Some(RagdollBone::RightFoot),
            _ => None,
        }
    }

    /// The region whose radius the bone's collider has.
    pub fn region(self) -> (region: BoneRegion)
        ensures
            region == self.region_of(),
    {
        match self {
            RagdollBone::Hips => BoneRegion::Torso,
            RagdollBone::Spine => BoneRegion::Torso,
            RagdollBone::Spine1 => BoneRegion::Torso,
            RagdollBone::Spine2 => BoneRegion::Torso,
            RagdollBone::LeftShoulder => BoneRegion::Shoulder,
            RagdollBone::LeftArm => BoneRegion::Arm,
            RagdollBone::LeftForeArm => BoneRegion::Arm,
            RagdollBone::RightShoulder => BoneRegion::Shoulder,
            RagdollBone::RightArm => BoneRegion::Arm,
            RagdollBone::RightForeArm => BoneRegion::Arm,
            RagdollBone::LeftUpLeg => BoneRegion::Leg,
            RagdollBone::LeftLeg => BoneRegion::Leg,
            RagdollBone::RightUpLeg => BoneRegion::Leg,
            RagdollBone::RightLeg => BoneRegion::Leg,
            _ => BoneRegion::Leaf,
        }
    }

    /// The class whose limits the joint above the bone has.
    pub fn joint_class(self) -> (class: JointClass)
        ensures
            class == self.joint_class_of(),
    {
        match self {
            RagdollBone::LeftArm => JointClass::Proximal,
            RagdollBone::LeftForeArm => JointClass::Mid,
            RagdollBone::RightArm => JointClass::Proximal,
            RagdollBone::RightForeArm => JointClass::Mid,
            RagdollBone::LeftUpLeg => JointClass::Proximal,
            RagdollBone::LeftLeg => JointClass::Mid,
            RagdollBone::RightUpLeg => JointClass::Proximal,
            RagdollBone::RightLeg => JointClass::Mid,
            _ => JointClass::Extremity,
        }
    }
}

/// The table is in order: a bone stands behind the one that it hangs off. Only the hips hang off
/// nothing.
pub proof fn lemma_parents_come_first(bone: RagdollBone)
    ensures
        bone.parent_of() is None <==> bone == RagdollBone::Hips,
        bone.parent_of() matches Some(parent) ==> parent.place() < bone.place(),
        0 <= bone.place() < RAGDOLL_BONES,
        RagdollBone::at(bone.place()) == bone,
{
}

/// The torso hangs together without joints: what a torso bone hangs off is torso.
pub proof fn lemma_torso_is_closed(bone: RagdollBone)
    requires
        bone.in_torso(),
    ensures
        bone.parent_of() matches Some(parent) ==> parent.in_torso(),
{
}

/// A capsule runs from a bone to one that hangs off it.
pub proof fn lemma_capsules_run_to_children(bone: RagdollBone)
    ensures
        bone.capsule_end() matches Some(end) ==> end.parent_of() == Some(bone),
{
}

/// The last of `order` that `wanted` holds.
pub open spec fn last_of(order: Seq<int>, wanted: Set<int>) -> Option<int>
    decreases order.len(),
{
    if order.len() == 0 {
        None
    } else if wanted.contains(order.last()) {
        Some(order.last())
    } else {
        last_of(order.drop_last(), wanted)
    }
}

/// A skeleton at the moment it goes limp.
pub struct Pose {
    pub tree: SceneTree,
    /// Where the body stands in the scene.
    pub root: usize,
    /// For each place whether the entity there has a position in the world.
    pub placed: Vec<bool>,
    /// For each place whether that position is finite.
    pub finite: Vec<bool>,
}

impl Pose {
    /// The scene is in order and every place has its flags.
    pub open spec fn wf(&self) -> bool {
        &&& self.tree.wf()
        &&& self.root < self.tree.nodes@.len()
        &&& self.placed@.len() == self.tree.nodes@.len()
        &&& self.finite@.len() == self.tree.nodes@.len()
    }

    /// The places that are a bone with this stem and a position.
    pub open spec fn candidates(&self, bone: RagdollBone) -> Set<int> {
        Set::new(
            |i: int|
                self.placed@[i] && self.tree.name_at(i) is Some && stem_of(self.tree.name_at(i)->0)
                    == bone.text(),
        )
    }

    /// Where a bone is in the scene: of several the one that the walk meets last.
    pub open spec fn located(&self, bone: RagdollBone) -> Option<int> {
        last_of(self.tree.walk(self.root as int), self.candidates(bone))
    }

    /// Whether a bone gets a rigid body: it is there and its position is finite.
    pub open spec fn has_body(&self, bone: RagdollBone) -> bool {
        self.located(bone) is Some && self.finite@[self.located(bone)->0]
    }

    /// Whether a bone gets a joint: it is a limb, and both it and what it hangs off get a body.
    pub open spec fn has_joint(&self, bone: RagdollBone) -> bool {
        &&& !bone.in_torso()
        &&& self.has_body(bone)
        &&& bone.parent_of() is Some
        &&& self.has_body(bone.parent_of()->0)
    }

    /// Whether the skeleton can go limp: the hips are there, and the neck can carry a body.
    pub open spec fn can_go_limp(&self) -> bool {
        self.located(RagdollBone::Hips) is Some && self.has_body(RagdollBone::Neck)
    }
}

/// A rigid body to spawn.
#[derive(Clone, Copy, Debug, PartialEq, Eq, Structural)]
pub struct BodyPlan {
    pub bone: RagdollBone,
    /// The bone's place in the scene.
    pub place: usize,
    /// The body is moved by the controller; otherwise it is free.
    pub kinematic: bool,
    /// The place of the bone that the capsule runs to.
    pub capsule_to: Option<usize>,
}

/// A joint to spawn between the bodies of two bones.
#[derive(Clone, Copy, Debug, PartialEq, Eq, Structural)]
pub struct JointPlan {
    pub parent: RagdollBone,
    pub child: RagdollBone,
    pub class: JointClass,
}

/// The bodies and joints of a ragdoll.
pub struct RagdollPlan {
    pub bodies: Vec<BodyPlan>,
    pub joints: Vec<JointPlan>,
}

/// The bones among the first `n` of the table that `wanted` holds, in order.
pub open spec fn table_bones(n: int, wanted: Set<RagdollBone>) -> Seq<RagdollBone>
    decreases n,
{
    if n <= 0 {
        seq![]
    } else if wanted.contains(RagdollBone::at(n - 1)) {
        table_bones(n - 1, wanted).push(RagdollBone::at(n - 1))
    } else {
        table_bones(n - 1, wanted)
    }
}

impl Pose {
    /// The body that a bone gets.
    pub open spec fn body_plan(&self, bone: RagdollBone) -> BodyPlan {
        BodyPlan {
            bone,
            place: self.located(bone)->0 as usize,
            kinematic: bone.in_torso(),
            capsule_to: match bone.capsule_end() {
                Some(end) => match self.located(end) {
                    Some(i) => Some(i as usize),
                    None => None,
                },
                None => None,
            },
        }
    }

    /// The joint that a bone gets.
    pub open spec fn joint_plan(&self, bone: RagdollBone) -> JointPlan {
        JointPlan { parent: bone.parent_of()->0, child: bone, class: bone.joint_class_of() }
    }

    /// The bones that get a body.
    pub open spec fn bodied(&self) -> Set<RagdollBone> {
        Set::new(|b: RagdollBone| self.has_body(b))
    }

    /// The bones that get a joint.
    pub open spec fn jointed(&self) -> Set<RagdollBone> {
        Set::new(|b: RagdollBone| self.has_joint(b))
    }

    /// Finds where each bone of the table is in the scene.
    fn track(&self) -> (located: Vec<Option<usize>>)
        requires
            self.wf(),
        ensures
            located@.len() == RAGDOLL_BONES,
            forall|b: int|
                0 <= b < RAGDOLL_BONES ==> match #[trigger] located@[b] {
                    Some(i) => self.located(RagdollBone::at(b)) == Some(i as int) && i
                        < self.tree.nodes@.len(),
                    None => self.located(RagdollBone::at(b)) is None,
                },
    {
        let order = self.tree.descendants(self.root);
        let ghost all = places(order@);
        let mut located: Vec<Option<usize>> = Vec::new();
        let mut b: usize = 0;
        while b < RAGDOLL_BONES
            invariant
                b <= RAGDOLL_BONES,
                located@.len() == b,
                forall|c: int| 0 <= c < b ==> #[trigger] located@[c] is None,
            decreases RAGDOLL_BONES - b,
        {
            located.push(None);
            b = b + 1;
        }
        let mut k: usize = 0;
        while k < order.len()
            invariant
                k <= order@.len(),
                self.wf(),
                all == places(order@),
                all == self.tree.walk(self.root as int),
                located@.len() == RAGDOLL_BONES,
                forall|j: int|
                    0 <= j < order@.len() ==> #[trigger] order@[j] < self.tree.nodes@.len(),
                forall|c: int|
                    0 <= c < RAGDOLL_BONES ==> match #[trigger] located@[c] {
                        Some(i) => last_of(
                            all.take(k as int),
                            self.candidates(RagdollBone::at(c)),
                        ) == Some(i as int) && i < self.tree.nodes@.len(),
                        None => last_of(
                            all.take(k as int),
                            self.candidates(RagdollBone::at(c)),
                        ) is None,
                    },
            decreases order@.len() - k,
        {
            let i: usize = order[k];
            let ghost before = located@;
            proof {
                assert(all[k as int] == i as int);
                assert(all.take(k + 1).drop_last() =~= all.take(k as int));
                assert(all.take(k + 1).last() == i as int);
            }
            let stem: Option<&str> = match &self.tree.nodes[i].name {
                Some(name) => if self.placed[i] {
                    Some(bone_stem(name.as_str()))
                } else {
                    None
                },
                None => None,
            };
            match stem {
                Some(stem) => {
                    let mut c: usize = 0;
                    while c < RAGDOLL_BONES
                        invariant
                            c <= RAGDOLL_BONES,
                            located@.len() == RAGDOLL_BONES,
                            before.len() == RAGDOLL_BONES,
                            i < self.tree.nodes@.len(),
                            self.placed@[i as int],
                            self.tree.name_at(i as int) is Some,
                            stem@ == stem_of(self.tree.name_at(i as int)->0),
                            forall|d: int|
                                0 <= d < RAGDOLL_BONES ==> #[trigger] located@[d] == if d < c
                                    && self.candidates(RagdollBone::at(d)).contains(i as int) {
                                    Some(i)
                                } else {
                                    before[d]
                                },
                        decreases RAGDOLL_BONES - c,
                    {
                        if text::same_text(stem, RagdollBone::from_place(c).stem()) {
                            located.set(c, Some(i));
                        }
                        c = c + 1;
                    }
                },
                None => {
                    assert forall|d: int| 0 <= d < RAGDOLL_BONES implies !self.candidates(
                        RagdollBone::at(d),
                    ).contains(i as int) by {}
                },
            }
            proof {
                assert forall|c: int| 0 <= c < RAGDOLL_BONES implies match #[trigger] located@[c] {
                    Some(i) => last_of(
                        all.take(k + 1),
                        self.candidates(RagdollBone::at(c)),
                    ) == Some(i as int) && i < self.tree.nodes@.len(),
                    None => last_of(
                        all.take(k + 1),
                        self.candidates(RagdollBone::at(c)),
                    ) is None,
                } by {
                    assert(match before[c] {
                        Some(i) => last_of(
                            all.take(k as int),
                            self.candidates(RagdollBone::at(c)),
                        ) == Some(i as int),
                        None => last_of(
                            all.take(k as int),
                            self.candidates(RagdollBone::at(c)),
                        ) is None,
                    });
                }
            }
            k = k + 1;
        }
        assert(all.take(all.len() as int) =~= all);
        located
    }

    /// Plans the bodies and joints of the ragdoll, if the skeleton can go limp.
    pub fn build_ragdoll_graph(&self) -> (plan: Option<RagdollPlan>)
        requires
            self.wf(),
        ensures
            plan is Some <==> self.can_go_limp(),
            plan matches Some(p) ==> {
                &&& p.bodies@ == table_bones(RAGDOLL_BONES as int, self.bodied()).map_values(
                    |b: RagdollBone| self.body_plan(b),
                )
                &&& p.joints@ == table_bones(RAGDOLL_BONES as int, self.jointed()).map_values(
                    |b: RagdollBone| self.joint_plan(b),
                )
            },
    {
        let located = self.track();
        let ghost planned_body = |b: RagdollBone| self.body_plan(b);
        let ghost planned_joint = |b: RagdollBone| self.joint_plan(b);
        proof {
            assert(RagdollBone::at(0) == RagdollBone::Hips);
            assert(RagdollBone::at(4) == RagdollBone::Neck);
            assert(match located@[0] {
                Some(i) => self.located(RagdollBone::at(0)) == Some(i as int),
                None => self.located(RagdollBone::at(0)) is None,
            });
            assert(match located@[4] {
                Some(i) => self.located(RagdollBone::at(4)) == Some(i as int) && i
                    < self.tree.nodes@.len(),
                None => self.located(RagdollBone::at(4)) is None,
            });
        }
        if located[0].is_none() {
            return None;
        }
        match located[4] {
            None => {
                return None;
            },
            Some(neck) => {
                if !self.finite[neck] {
                    return None;
                }
            },
        }
        let mut bodies: Vec<BodyPlan> = Vec::new();
        let mut joints: Vec<JointPlan> = Vec::new();
        let mut b: usize = 0;
        proof {
            assert(bodies@ =~= table_bones(0, self.bodied()).map_values(planned_body));
            assert(joints@ =~= table_bones(0, self.jointed()).map_values(planned_joint));
        }
        while b < RAGDOLL_BONES
            invariant
                b <= RAGDOLL_BONES,
                self.wf(),
                planned_body == (|b: RagdollBone| self.body_plan(b)),
                planned_joint == (|b: RagdollBone| self.joint_plan(b)),
                located@.len() == RAGDOLL_BONES,
                forall|c: int|
                    0 <= c < RAGDOLL_BONES ==> match #[trigger] located@[c] {
                        Some(i) => self.located(RagdollBone::at(c)) == Some(i as int) && i
                            < self.tree.nodes@.len(),
                        None => self.located(RagdollBone::at(c)) is None,
                    },
                bodies@ == table_bones(b as int, self.bodied()).map_values(planned_body),
                joints@ == table_bones(b as int, self.jointed()).map_values(planned_joint),
            decreases RAGDOLL_BONES - b,
        {
            let bone = RagdollBone::from_place(b);
            assert(bone == RagdollBone::at(b as int));
            let spot: Option<usize> = self.sound_place(&located, bone);
            match spot {
                Some(place) => {
                    let capsule_to: Option<usize> = match bone.capsule_target() {
                        Some(end) => {
                            proof {
                                lemma_parents_come_first(end);
                            }
                            located[end.to_place()]
                        },
                        None => None,
                    };
                    proof {
                        if bone.capsule_end() is Some {
                            let end = bone.capsule_end()->0;
                            assert(match located@[end.place()] {
                                Some(i) => self.located(RagdollBone::at(end.place())) == Some(
                                    i as int,
                                ),
                                None => self.located(RagdollBone::at(end.place())) is None,
                            });
                        }
                    }
                    bodies.push(
                        BodyPlan { bone, place, kinematic: bone.is_torso(), capsule_to },
                    );
                    assert(bodies@ =~= table_bones(b + 1, self.bodied()).map_values(planned_body));
                    if !bone.is_torso() {
                        match bone.parent() {
                            Some(parent) => {
                                if self.sound_place(&located, parent).is_some() {
                                    joints.push(
                                        JointPlan {
                                            parent,
                                            child: bone,
                                            class: bone.joint_class(),
                                        },
                                    );
                                    assert(joints@ =~= table_bones(
                                        b + 1,
                                        self.jointed(),
                                    ).map_values(planned_joint));
                                }
                            },
                            None => {},
                        }
                    }
                },
                None => {},
            }
            b = b + 1;
        }
        Some(RagdollPlan { bodies, joints })
    }

    /// The place of a bone that gets a body.
    fn sound_place(&self, located: &Vec<Option<usize>>, bone: RagdollBone) -> (place: Option<usize>)
        requires
            self.wf(),
            located@.len() == RAGDOLL_BONES,
            forall|c: int|
                0 <= c < RAGDOLL_BONES ==> match #[trigger] located@[c] {
                    Some(i) => self.located(RagdollBone::at(c)) == Some(i as int) && i
                        < self.tree.nodes@.len(),
                    None => self.located(RagdollBone::at(c)) is None,
                },
        ensures
            place is Some <==> self.has_body(bone),
            place matches Some(i) ==> self.located(bone) == Some(i as int),
    {
        proof {
            lemma_parents_come_first(bone);
            assert(match located@[bone.place()] {
                Some(i) => self.located(RagdollBone::at(bone.place())) == Some(i as int) && i
                    < self.tree.nodes@.len(),
                None => self.located(RagdollBone::at(bone.place())) is None,
            });
        }
        match located[bone.to_place()] {
            Some(i) => if self.finite[i] {
                Some(i)
            } else {
                None
            },
            None => None,
        }
    }
}

/// Every joint of a plan holds a free limb to a body of the same plan.
pub proof fn lemma_joints_hold_bodies(pose: &Pose, bone: RagdollBone)
    requires
        pose.has_joint(bone),
    ensures
        pose.has_body(bone),
        pose.has_body(pose.joint_plan(bone).parent),
        !pose.body_plan(bone).kinematic,
        pose.joint_plan(bone).parent != bone,
{
    lemma_parents_come_first(bone);
}

/// What to do about the ragdoll of a body.
#[derive(Clone, Copy, Debug, PartialEq, Eq, Structural)]
pub enum RagdollEdge {
    Build,
    TearDown,
    Keep,
}

/// Decides what to do about the ragdoll: build it when the player goes limp, tear it down when
/// the player gets up.
pub fn ragdoll_edge(enabled: bool, built: bool, limp: bool) -> (edge: RagdollEdge)
    ensures
        edge == if enabled && !built && limp {
            RagdollEdge::Build
        } else if enabled && built && !limp {
            RagdollEdge::TearDown
        } else {
            RagdollEdge::Keep
        },
{
    if !enabled {
        return RagdollEdge::Keep;
    }
    match (built, limp) {
        (false, true) => RagdollEdge::Build,
        (true, false) => RagdollEdge::TearDown,
        _ => RagdollEdge::Keep,
    }
}

/// A bone and the rigid body that drives it.
#[derive(Clone, Copy, Debug, PartialEq, Eq, Structural)]
pub struct RagdolledBone {
    pub bone: RagdollBone,
    pub bone_entity: u64,
    pub physics_entity: u64,
}

/// A ragdoll that has been built.
pub struct RagdollGraph {
    pub bones: Vec<RagdolledBone>,
    pub joints: Vec<u64>,
}

impl RagdollGraph {
    /// The rigid body of the bone with the number `entity`; of several the last.
    pub open spec fn body_of(&self, entity: u64, n: int) -> Option<u64>
        decreases n,
    {
        if n <= 0 {
            None
        } else if self.bones@[n - 1].bone_entity == entity {
            Some(self.bones@[n - 1].physics_entity)
        } else {
            self.body_of(entity, n - 1)
        }
    }

    /// Finds the rigid body of the bone with the number `entity`.
    fn find_body(&self, entity: u64) -> (body: Option<u64>)
        ensures
            body == self.body_of(entity, self.bones@.len() as int),
    {
        let mut n: usize = self.bones.len();
        while n > 0
            invariant
                n <= self.bones@.len(),
                self.body_of(entity, self.bones@.len() as int) == self.body_of(entity, n as int),
            decreases n,
        {
            if self.bones[n - 1].bone_entity == entity {
                return Some(self.bones[n - 1].physics_entity);
            }
            n = n - 1;
        }
        None
    }

    /// The rigid body against which a bone is posed: for a limb that of its parent in the scene,
    /// for the torso none. The torso keeps the pose that the animation gave it.
    pub fn pose_against(&self, i: usize, parent_entity: Option<u64>) -> (body: Option<u64>)
        requires
            i < self.bones@.len(),
        ensures
            body == if self.bones@[i as int].bone.in_torso() || parent_entity is None {
                None
            } else {
                self.body_of(parent_entity->0, self.bones@.len() as int)
            },
    {
        if self.bones[i].bone.is_torso() {
            return None;
        }
        match parent_entity {
            Some(entity) => self.find_body(entity),
            None => None,
        }
    }

    /// The entities to despawn when the ragdoll is torn down: the joints, then the bodies.
    pub fn teardown(&self) -> (entities: Vec<u64>)
        ensures
            entities@ == self.joints@ + self.bones@.map_values(
                |b: RagdolledBone| b.physics_entity,
            ),
    {
        let mut entities: Vec<u64> = Vec::new();
        let mut i: usize = 0;
        while i < self.joints.len()
            invariant
                i <= self.joints@.len(),
                entities@ == self.joints@.take(i as int),
            decreases self.joints@.len() - i,
        {
            entities.push(self.joints[i]);
            assert(self.joints@.take(i + 1) =~= self.joints@.take(i as int).push(
                self.joints@[i as int],
            ));
            i = i + 1;
        }
        assert(self.joints@.take(self.joints@.len() as int) =~= self.joints@);
        let ghost ids = self.bones@.map_values(|b: RagdolledBone| b.physics_entity);
        let mut j: usize = 0;
        assert(entities@ =~= self.joints@ + ids.take(0));
        while j < self.bones.len()
            invariant
                j <= self.bones@.len(),
                ids == self.bones@.map_values(|b: RagdolledBone| b.physics_entity),
                entities@ == self.joints@ + ids.take(j as int),
            decreases self.bones@.len() - j,
        {
            entities.push(self.bones[j].physics_entity);
            assert(ids.take(j + 1) =~= ids.take(j as int).push(ids[j as int]));
            assert(entities@ =~= self.joints@ + ids.take(j + 1));
            j = j + 1;
        }
        assert(ids.take(ids.len() as int) =~= ids);
        entities
    }
}

/// The same bone on the other side of the body; the spine and the neck have no other side.
pub open spec fn mirrored(bone: RagdollBone) -> RagdollBone {
    match bone {
        RagdollBone::LeftShoulder => RagdollBone::RightShoulder,
        RagdollBone::LeftArm => RagdollBone::RightArm,
        RagdollBone::LeftForeArm => RagdollBone::RightForeArm,
        RagdollBone::LeftHand => RagdollBone::RightHand,
        RagdollBone::LeftUpLeg => RagdollBone::RightUpLeg,
        RagdollBone::LeftLeg => RagdollBone::RightLeg,
        RagdollBone::LeftFoot => RagdollBone::RightFoot,
        RagdollBone::RightShoulder => RagdollBone::LeftShoulder,
        RagdollBone::RightArm => RagdollBone::LeftArm,
        RagdollBone::RightForeArm => RagdollBone::LeftForeArm,
        RagdollBone::RightHand => RagdollBone::LeftHand,
        RagdollBone::RightUpLeg => RagdollBone::LeftUpLeg,
        RagdollBone::RightLeg => RagdollBone::LeftLeg,
        RagdollBone::RightFoot => RagdollBone::LeftFoot,
        other => other,
    }
}

/// The body is the same on both sides: what a bone hangs off, where its capsule runs to, its region
/// and its joint are those of its mirror image, mirrored.
pub proof fn lemma_both_sides_are_alike(
    bone: RagdollBone,
    parents: (Option<RagdollBone>, Option<RagdollBone>),
    ends: (Option<RagdollBone>, Option<RagdollBone>),
    regions: (BoneRegion, BoneRegion),
    classes: (JointClass, JointClass),
    torso: (bool, bool),
)
    requires
        call_ensures(RagdollBone::parent, (bone,), parents.0),
        call_ensures(RagdollBone::parent, (mirrored(bone),), parents.1),
        call_ensures(RagdollBone::capsule_target, (bone,), ends.0),
        call_ensures(RagdollBone::capsule_target, (mirrored(bone),), ends.1),
        call_ensures(RagdollBone::region, (bone,), regions.0),
        call_ensures(RagdollBone::region, (mirrored(bone),), regions.1),
        call_ensures(RagdollBone::joint_class, (bone,), classes.0),
        call_ensures(RagdollBone::joint_class, (mirrored(bone),), classes.1),
        call_ensures(RagdollBone::is_torso, (bone,), torso.0),
        call_ensures(RagdollBone::is_torso, (mirrored(bone),), torso.1),
    ensures
        parents.0 is Some <==> parents.1 is Some,
        parents.0 matches Some(p) ==> parents.1 == Some(mirrored(p)),
        ends.0 is Some <==> ends.1 is Some,
        ends.0 matches Some(e) ==> bone == mirrored(bone) || ends.1 == Some(mirrored(e)),
        regions.0 == regions.1,
        classes.0 == classes.1,
        torso.0 == torso.1,
{
}

/// A limb hangs off the torso by its first joint, and has another class of joint at each bone
/// further out: upper arms and thighs, then forearms and shins, then hands and feet. The torso is
/// what hangs together without joints, and what carries no capsule is a leaf.
pub proof fn lemma_limbs_go_outward(
    bone: RagdollBone,
    parent: RagdollBone,
    torso: (bool, bool),
    classes: (JointClass, JointClass),
    regions: (BoneRegion, BoneRegion),
    end: Option<RagdollBone>,
)
    requires
        call_ensures(RagdollBone::parent, (bone,), Some(parent)),
        call_ensures(RagdollBone::is_torso, (bone,), torso.0),
        call_ensures(RagdollBone::is_torso, (parent,), torso.1),
        call_ensures(RagdollBone::joint_class, (bone,), classes.0),
        call_ensures(RagdollBone::joint_class, (parent,), classes.1),
        call_ensures(RagdollBone::region, (bone,), regions.0),
        call_ensures(RagdollBone::region, (parent,), regions.1),
        call_ensures(RagdollBone::capsule_target, (bone,), end),
    ensures
        torso.0 ==> torso.1,
        classes.0 is Proximal <==> !torso.0 && torso.1,
        classes.0 is Mid <==> !torso.0 && classes.1 is Proximal,
        regions.0 is Leaf <==> end is None,
        torso.0 && !(regions.0 is Leaf) <==> regions.0 is Torso || regions.0 is Shoulder,
        regions.0 is Arm ==> regions.1 is Shoulder || regions.1 is Arm,
        regions.0 is Leg ==> regions.1 is Torso || regions.1 is Leg,
        !(regions.0 is Leaf) && (regions.1 is Shoulder || regions.1 is Arm) ==> regions.0 is Arm,
        !(regions.0 is Leaf) && !torso.0 && (regions.1 is Torso || regions.1 is Leg) ==> regions.0
            is Leg,
{
}

/// A bone is called by its side and its kind: names on both sides differ in the side alone.
pub proof fn lemma_sides_are_called_alike(bone: RagdollBone, own: &'static str, other: &'static str)
    requires
        call_ensures(RagdollBone::stem, (bone,), own),
        call_ensures(RagdollBone::stem, (mirrored(bone),), other),
        own@.len() > 4,
        own@.take(4) == "Left"@,
    ensures
        other@ == "Right"@ + own@.skip(4),
{
    reveal_strlit("Left");
    reveal_strlit("Right");
    lemma_left_names(bone);
    match bone {
        RagdollBone::LeftShoulder => {
            reveal_strlit("RightShoulder");
        },
        RagdollBone::LeftArm => {
            reveal_strlit("RightArm");
        },
        RagdollBone::LeftForeArm => {
            reveal_strlit("RightForeArm");
        },
        RagdollBone::LeftHand => {
            reveal_strlit("RightHand");
        },
        RagdollBone::LeftUpLeg => {
            reveal_strlit("RightUpLeg");
        },
        RagdollBone::LeftLeg => {
            reveal_strlit("RightLeg");
        },
        RagdollBone::LeftFoot => {
            reveal_strlit("RightFoot");
        },
        _ => {
            assert(own@.take(4)[0] == own@[0]);
        },
    }
    assert(other@ =~= "Right"@ + own@.skip(4));
}

proof fn lemma_left_names(bone: RagdollBone)
    ensures
        bone is LeftShoulder || bone is LeftArm || bone is LeftForeArm || bone is LeftHand || bone
            is LeftUpLeg || bone is LeftLeg || bone is LeftFoot || bone.text()[0] != 'L',
        bone.text().len() > 0,
        bone is LeftShoulder ==> bone.text().skip(4) == seq!['S', 'h', 'o', 'u', 'l', 'd', 'e', 'r'],
        bone is LeftArm ==> bone.text().skip(4) == seq!['A', 'r', 'm'],
        bone is LeftForeArm ==> bone.text().skip(4) == seq!['F', 'o', 'r', 'e', 'A', 'r', 'm'],
        bone is LeftHand ==> bone.text().skip(4) == seq!['H', 'a', 'n', 'd'],
        bone is LeftUpLeg ==> bone.text().skip(4) == seq!['U', 'p', 'L', 'e', 'g'],
        bone is LeftLeg ==> bone.text().skip(4) == seq!['L', 'e', 'g'],
        bone is LeftFoot ==> bone.text().skip(4) == seq!['F', 'o', 'o', 't'],
{
    reveal_strlit("Hips");
    reveal_strlit("Spine");
    reveal_strlit("Spine1");
    reveal_strlit("Spine2");
    reveal_strlit("Neck");
    reveal_strlit("LeftShoulder");
    reveal_strlit("LeftArm");
    reveal_strlit("LeftForeArm");
    reveal_strlit("LeftHand");
    reveal_strlit("LeftUpLeg");
    reveal_strlit("LeftLeg");
    reveal_strlit("LeftFoot");
    reveal_strlit("RightShoulder");
    reveal_strlit("RightArm");
    reveal_strlit("RightForeArm");
    reveal_strlit("RightHand");
    reveal_strlit("RightUpLeg");
    reveal_strlit("RightLeg");
    reveal_strlit("RightFoot");
}

proof fn lemma_last_of_is_last(order: Seq<int>, wanted: Set<int>)
    ensures
        last_of(order, wanted) is None <==> forall|k: int|
            0 <= k < order.len() ==> !wanted.contains(#[trigger] order[k]),
        last_of(order, wanted) matches Some(i) ==> exists|k: int|
            0 <= k < order.len() && order[k] == i && wanted.contains(i) && forall|j: int|
                k < j < order.len() ==> !wanted.contains(#[trigger] order[j]),
    decreases order.len(),
{
    if order.len() > 0 {
        let rest = order.drop_last();
        if wanted.contains(order.last()) {
            assert(order[order.len() - 1] == order.last());
        } else {
            lemma_last_of_is_last(rest, wanted);
            if last_of(rest, wanted) is Some {
                let i = last_of(rest, wanted)->0;
                let k = choose|k: int|
                    0 <= k < rest.len() && rest[k] == i && wanted.contains(i) && forall|j: int|
                        k < j < rest.len() ==> !wanted.contains(#[trigger] rest[j]);
                assert(order[k] == i);
                assert forall|j: int| k < j < order.len() implies !wanted.contains(
                    #[trigger] order[j],
                ) by {
                    if j < rest.len() {
                        assert(rest[j] == order[j]);
                    }
                }
            } else {
                assert forall|k: int| 0 <= k < order.len() implies !wanted.contains(
                    #[trigger] order[k],
                ) by {
                    if k < rest.len() {
                        assert(rest[k] == order[k]);
                    }
                }
            }
        }
    }
}

proof fn lemma_table_bones_members(n: int, wanted: Set<RagdollBone>, bone: RagdollBone)
    ensures
        table_bones(n, wanted).contains(bone) <==> wanted.contains(bone) && exists|i: int|
            0 <= i < n && #[trigger] RagdollBone::at(i) == bone,
    decreases n,
{
    if n > 0 {
        let rest = table_bones(n - 1, wanted);
        lemma_table_bones_members(n - 1, wanted, bone);
        let last = RagdollBone::at(n - 1);
        let all = table_bones(n, wanted);
        if rest.contains(bone) {
            assert(all[rest.index_of(bone)] == bone);
        }
        if wanted.contains(last) {
            assert(all[rest.len() as int] == last);
            if all.contains(bone) && bone != last {
                let i = all.index_of(bone);
                assert(rest[i] == bone);
            }
        }
        if exists|i: int| 0 <= i < n && #[trigger] RagdollBone::at(i) == bone {
            let i = choose|i: int| 0 <= i < n && #[trigger] RagdollBone::at(i) == bone;
            if i < n - 1 {
                assert(RagdollBone::at(i) == bone);
            }
        }
    }
}

/// Whether a bone is at the place `order[k]` of a walk over the skeleton: an entity with a position
/// whose name has the bone's stem, and the last such of the walk.
pub open spec fn stands_at(pose: &Pose, order: Seq<usize>, bone: RagdollBone, k: int) -> bool {
    &&& 0 <= k < order.len()
    &&& pose.candidates(bone).contains(order[k] as int)
    &&& forall|j: int| k < j < order.len() ==> !pose.candidates(bone).contains(#[trigger] order[j] as int)
}

/// Just the bones that are there, at a finite position, get a body: kinematic in the torso, free in
/// the limbs.
pub proof fn lemma_bones_get_bodies(
    pose: Pose,
    order: Vec<usize>,
    plan: RagdollPlan,
    bone: RagdollBone,
)
    requires
        call_ensures(SceneTree::descendants, (&pose.tree, pose.root), order),
        call_ensures(Pose::build_ragdoll_graph, (&pose,), Some(plan)),
    ensures
        (exists|i: int| 0 <= i < plan.bodies@.len() && (#[trigger] plan.bodies@[i]).bone == bone)
            <==> exists|k: int| #[trigger]
            stands_at(&pose, order@, bone, k) && pose.finite@[order@[k] as int],
        forall|i: int|
            0 <= i < plan.bodies@.len() && (#[trigger] plan.bodies@[i]).bone == bone ==> {
                &&& plan.bodies@[i].kinematic == bone.in_torso()
                &&& exists|k: int| #[trigger]
                    stands_at(&pose, order@, bone, k) && order@[k] == plan.bodies@[i].place
            },
{
    let met = places(order@);
    let wanted = pose.candidates(bone);
    lemma_last_of_is_last(met, wanted);
    lemma_parents_come_first(bone);
    lemma_table_bones_members(RAGDOLL_BONES as int, pose.bodied(), bone);
    let bones = table_bones(RAGDOLL_BONES as int, pose.bodied());
    if pose.located(bone) is Some {
        let at = pose.located(bone)->0;
        let k = choose|k: int|
            0 <= k < met.len() && met[k] == at && wanted.contains(at) && forall|j: int|
                k < j < met.len() ==> !wanted.contains(#[trigger] met[j]);
        assert(order@[k] as int == at);
        assert forall|j: int| k < j < order@.len() implies !wanted.contains(
            #[trigger] order@[j] as int,
        ) by {
            assert(!wanted.contains(met[j]));
        }
        assert(stands_at(&pose, order@, bone, k));
        assert(at as usize as int == at);
    }
    if exists|k: int| #[trigger]
        stands_at(&pose, order@, bone, k) && pose.finite@[order@[k] as int] {
        let k = choose|k: int| #[trigger]
            stands_at(&pose, order@, bone, k) && pose.finite@[order@[k] as int];
        assert(met[k] == order@[k] as int);
        assert(wanted.contains(met[k]));
        let at = pose.located(bone)->0;
        let m = choose|m: int|
            0 <= m < met.len() && met[m] == at && wanted.contains(at) && forall|j: int|
                m < j < met.len() ==> !wanted.contains(#[trigger] met[j]);
        assert(order@[m] as int == at);
        assert(m == k);
        assert(pose.has_body(bone));
        assert(RagdollBone::at(bone.place()) == bone);
        assert(bones.contains(bone));
        let i = bones.index_of(bone);
        assert(plan.bodies@[i] == pose.body_plan(bone));
    }
    assert forall|i: int| 0 <= i < plan.bodies@.len() && (#[trigger] plan.bodies@[i]).bone
        == bone implies bones[i] == bone && pose.has_body(bone) by {
        assert(plan.bodies@[i] == pose.body_plan(bones[i]));
        assert(bones.contains(bones[i]));
        lemma_table_bones_members(RAGDOLL_BONES as int, pose.bodied(), bones[i]);
    }
}

/// Just the limbs whose own bone and whose parent get a body are held by a joint, each to its parent.
pub proof fn lemma_limbs_get_joints(pose: Pose, plan: RagdollPlan, bone: RagdollBone)
    requires
        call_ensures(Pose::build_ragdoll_graph, (&pose,), Some(plan)),
    ensures
        ({
            let bodied = |b: RagdollBone|
                exists|i: int| 0 <= i < plan.bodies@.len() && (#[trigger] plan.bodies@[i]).bone == b;
            &&& (exists|i: int| 0 <= i < plan.joints@.len() && (#[trigger] plan.joints@[i]).child == bone)
                <==> {
                &&& !bone.in_torso()
                &&& bodied(bone)
                &&& bodied(bone.parent_of()->0)
            }
            &&& forall|i: int|
                0 <= i < plan.joints@.len() && (#[trigger] plan.joints@[i]).child == bone ==> Some(
                    plan.joints@[i].parent,
                ) == bone.parent_of() && plan.joints@[i].class == bone.joint_class_of()
        }),
{
    lemma_bodied(pose, plan, bone);
    lemma_parents_come_first(bone);
    if bone.parent_of() is Some {
        lemma_bodied(pose, plan, bone.parent_of()->0);
    }
    let bones = table_bones(RAGDOLL_BONES as int, pose.jointed());
    lemma_table_bones_members(RAGDOLL_BONES as int, pose.jointed(), bone);
    if pose.has_joint(bone) {
        assert(RagdollBone::at(bone.place()) == bone);
        let i = bones.index_of(bone);
        assert(plan.joints@[i] == pose.joint_plan(bone));
    }
    assert forall|i: int| 0 <= i < plan.joints@.len() && (#[trigger] plan.joints@[i]).child
        == bone implies bones[i] == bone && pose.has_joint(bone) by {
        assert(plan.joints@[i] == pose.joint_plan(bones[i]));
        assert(bones.contains(bones[i]));
        lemma_table_bones_members(RAGDOLL_BONES as int, pose.jointed(), bones[i]);
    }
}

proof fn lemma_bodied(pose: Pose, plan: RagdollPlan, bone: RagdollBone)
    requires
        call_ensures(Pose::build_ragdoll_graph, (&pose,), Some(plan)),
    ensures
        pose.has_body(bone) <==> exists|i: int|
            0 <= i < plan.bodies@.len() && (#[trigger] plan.bodies@[i]).bone == bone,
{
    let bones = table_bones(RAGDOLL_BONES as int, pose.bodied());
    lemma_parents_come_first(bone);
    lemma_table_bones_members(RAGDOLL_BONES as int, pose.bodied(), bone);
    if pose.has_body(bone) {
        assert(RagdollBone::at(bone.place()) == bone);
        let i = bones.index_of(bone);
        assert(plan.bodies@[i] == pose.body_plan(bone));
    }
    if exists|i: int| 0 <= i < plan.bodies@.len() && (#[trigger] plan.bodies@[i]).bone == bone {
        let i = choose|i: int|
            0 <= i < plan.bodies@.len() && (#[trigger] plan.bodies@[i]).bone == bone;
        assert(plan.bodies@[i] == pose.body_plan(bones[i]));
        assert(bones.contains(bones[i]));
    }
}

/// A ragdoll is built when the player goes limp and torn down when the player gets up, and only
/// then: what is built stays while the player is limp.
pub proof fn lemma_ragdolls_follow_the_player(
    enabled: bool,
    built: bool,
    limp: bool,
    edge: RagdollEdge,
)
    requires
        call_ensures(ragdoll_edge, (enabled, built, limp), edge),
    ensures
        edge is Build <==> enabled && limp && !built,
        edge is TearDown <==> enabled && built && !limp,
        !enabled ==> edge is Keep,
{
}

/// Everything that a ragdoll was built of is despawned with it.
pub proof fn lemma_nothing_is_left_of_a_ragdoll(graph: RagdollGraph, entities: Vec<u64>, e: u64)
    requires
        call_ensures(RagdollGraph::teardown, (&graph,), entities),
    ensures
        entities@.len() == graph.joints@.len() + graph.bones@.len(),
        graph.joints@.contains(e) ==> entities@.contains(e),
        (exists|i: int| 0 <= i < graph.bones@.len() && (#[trigger] graph.bones@[i]).physics_entity == e)
            ==> entities@.contains(e),
{
    let all = entities@;
    if graph.joints@.contains(e) {
        assert(all[graph.joints@.index_of(e)] == e);
    }
    if exists|i: int| 0 <= i < graph.bones@.len() && (#[trigger] graph.bones@[i]).physics_entity == e {
        let i = choose|i: int|
            0 <= i < graph.bones@.len() && (#[trigger] graph.bones@[i]).physics_entity == e;
        assert(all[graph.joints@.len() + i] == e);
    }
}

/// A limb is posed against the body of the bone that it hangs off in the scene; the torso is not.
pub proof fn lemma_limbs_are_posed_against_their_parent(
    graph: RagdollGraph,
    i: usize,
    k: int,
    body: Option<u64>,
)
    requires
        i < graph.bones@.len(),
        0 <= k < graph.bones@.len(),
        forall|j: int|
            k < j < graph.bones@.len() ==> (#[trigger] graph.bones@[j]).bone_entity
                != graph.bones@[k].bone_entity,
        call_ensures(
            RagdollGraph::pose_against,
            (&graph, i, Some(graph.bones@[k].bone_entity)),
            body,
        ),
    ensures
        graph.bones@[i as int].bone.in_torso() ==> body is None,
        !graph.bones@[i as int].bone.in_torso() ==> body == Some(graph.bones@[k].physics_entity),
{
    lemma_body_of(graph, k, graph.bones@.len() as int);
}

proof fn lemma_body_of(graph: RagdollGraph, k: int, n: int)
    requires
        0 <= k < n <= graph.bones@.len(),
        forall|j: int|
            k < j < graph.bones@.len() ==> (#[trigger] graph.bones@[j]).bone_entity
                != graph.bones@[k].bone_entity,
    ensures
        graph.body_of(graph.bones@[k].bone_entity, n) == Some(graph.bones@[k].physics_entity),
    decreases n,
{
    if k < n - 1 {
        assert(graph.bones@[n - 1].bone_entity != graph.bones@[k].bone_entity);
        lemma_body_of(graph, k, n - 1);
    }
}

proof fn lemma_stands(pose: Pose, order: Seq<usize>, bone: RagdollBone)
    requires
        pose.located(bone) == last_of(places(order), pose.candidates(bone)),
    ensures
        pose.located(bone) is Some <==> exists|k: int| #[trigger] stands_at(&pose, order, bone, k),
        forall|k: int| #[trigger]
            stands_at(&pose, order, bone, k) ==> pose.located(bone) == Some(order[k] as int),
{
    let met = places(order);
    let wanted = pose.candidates(bone);
    lemma_last_of_is_last(met, wanted);
    if pose.located(bone) is Some {
        let at = pose.located(bone)->0;
        let m = choose|m: int|
            0 <= m < met.len() && met[m] == at && wanted.contains(at) && forall|j: int|
                m < j < met.len() ==> !wanted.contains(#[trigger] met[j]);
        assert(order[m] as int == at);
        assert forall|j: int| m < j < order.len() implies !wanted.contains(#[trigger] order[j] as int)
            by {
            assert(!wanted.contains(met[j]));
        }
        assert(stands_at(&pose, order, bone, m));
        assert forall|k: int| #[trigger] stands_at(&pose, order, bone, k) implies k == m by {
            assert(met[k] == order[k] as int);
        }
    }
    assert forall|k: int| #[trigger] stands_at(&pose, order, bone, k) implies pose.located(
        bone,
    ) is Some by {
        assert(met[k] == order[k] as int);
        assert(wanted.contains(met[k]));
    }
}

/// A body goes limp just if its hips are there and its neck is, at a finite position.
pub proof fn lemma_hips_and_neck_are_needed(pose: Pose, order: Vec<usize>, plan: Option<RagdollPlan>)
    requires
        call_ensures(SceneTree::descendants, (&pose.tree, pose.root), order),
        call_ensures(Pose::build_ragdoll_graph, (&pose,), plan),
    ensures
        plan is Some <==> (exists|k: int| #[trigger]
            stands_at(&pose, order@, RagdollBone::Hips, k)) && exists|k: int| #[trigger]
            stands_at(&pose, order@, RagdollBone::Neck, k) && pose.finite@[order@[k] as int],
{
    lemma_stands(pose, order@, RagdollBone::Hips);
    lemma_stands(pose, order@, RagdollBone::Neck);
}

} // verus!
