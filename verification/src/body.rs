//! The body of the first-person player: its clips, its set-up and where its eyes are.
//!
//! Lengths are in micrometres and times in nanoseconds.

use vstd::prelude::*;
use crate::arm::ArmState;
use crate::blend::{clamped, lemma_quotient};
use crate::bones::{
    BONE_RIGHT_ARM,
    BONE_RIGHT_FORE_ARM,
    BONE_RIGHT_HAND,
    LOWER_BODY_MASK,
    UPPER_BODY_MASK,
    mask_group,
    stem_of,
};
use crate::movement::FpsPlayerConfig;
use crate::skeleton::{all_of, sorted_by_stem, SceneTree};
use crate::text;

verus! {

/// The clips of the rifle pack start with this.
pub const PACK_RIFLE_PREFIX: &'static str = "rifle-8-way/";

/// The clip of a body that stands still.
pub const LOCOMOTION_IDLE_CLIP: &'static str = "locomotion/idle";

/// The nodes of the animation graph.
pub struct AnimationPlan {
    /// The mask of each clip, in the order of the clips.
    pub masks: Vec<u64>,
    /// The clip that an extra node plays on the upper body alone, and the mask of that node.
    pub idle_upper_body: Option<(usize, u64)>,
}

/// The mask of a clip: the rifle pack moves the lower body alone.
pub open spec fn clip_mask(name: Seq<char>) -> u64 {
    if text::starts_with(name, PACK_RIFLE_PREFIX@) {
        UPPER_BODY_MASK
    } else {
        0
    }
}

/// The first of `names` that `wanted` picks.
pub open spec fn first_named(names: Seq<String>, wanted: spec_fn(Seq<char>) -> bool) -> Option<int>
    decreases names.len(),
{
    if names.len() == 0 {
        None
    } else if first_named(names.drop_last(), wanted) is Some {
        first_named(names.drop_last(), wanted)
    } else if wanted(names.last()@) {
        Some(names.len() - 1)
    } else {
        None
    }
}

proof fn lemma_first_named(names: Seq<String>, wanted: spec_fn(Seq<char>) -> bool, i: int)
    requires
        0 <= i < names.len(),
        wanted(names[i]@),
        forall|j: int| 0 <= j < i ==> !wanted((#[trigger] names[j])@),
    ensures
        first_named(names, wanted) == Some(i),
    decreases names.len(),
{
    if i == names.len() - 1 {
        lemma_none_named(names.drop_last(), wanted);
    } else {
        lemma_first_named(names.drop_last(), wanted, i);
    }
}

proof fn lemma_none_named(names: Seq<String>, wanted: spec_fn(Seq<char>) -> bool)
    requires
        forall|j: int| 0 <= j < names.len() ==> !wanted((#[trigger] names[j])@),
    ensures
        first_named(names, wanted) is None,
    decreases names.len(),
{
    if names.len() > 0 {
        lemma_none_named(names.drop_last(), wanted);
    }
}

/// The place of the first name that equals `name`.
fn find_name(names: &Vec<String>, name: &str) -> (place: Option<usize>)
    ensures
        match place {
            Some(i) => first_named(names@, |n: Seq<char>| n == name@) == Some(i as int),
            None => first_named(names@, |n: Seq<char>| n == name@) is None,
        },
        place matches Some(i) ==> i < names@.len(),
{
    let ghost wanted = |n: Seq<char>| n == name@;
    let mut i: usize = 0;
    while i < names.len()
        invariant
            i <= names@.len(),
            wanted == (|n: Seq<char>| n == name@),
            forall|j: int| 0 <= j < i ==> !wanted((#[trigger] names@[j])@),
        decreases names@.len() - i,
    {
        if text::same_text(names[i].as_str(), name) {
            proof {
                lemma_first_named(names@, wanted, i as int);
            }
            return Some(i);
        }
        i += 1;
    }
    proof {
        lemma_none_named(names@, wanted);
    }
    None
}

/// Plans the animation graph for the clips of a model; a model without clips has none.
pub fn plan_animation_graph(names: &Vec<String>, has_animations: bool) -> (plan: Option<
    AnimationPlan,
>)
    ensures
        plan is Some <==> has_animations,
        plan matches Some(p) ==> {
            &&& p.masks@.len() == names@.len()
            &&& forall|i: int|
                0 <= i < names@.len() ==> #[trigger] p.masks@[i] == clip_mask(names@[i]@)
            &&& match p.idle_upper_body {
                Some((i, mask)) => mask == LOWER_BODY_MASK && first_named(
                    names@,
                    |n: Seq<char>| n == LOCOMOTION_IDLE_CLIP@,
                ) == Some(i as int),
                None => first_named(names@, |n: Seq<char>| n == LOCOMOTION_IDLE_CLIP@) is None,
            }
        },
{
    if !has_animations {
        return None;
    }
    let mut masks: Vec<u64> = Vec::new();
    let mut i: usize = 0;
    while i < names.len()
        invariant
            i <= names@.len(),
            masks@.len() == i,
            forall|j: int| 0 <= j < i ==> #[trigger] masks@[j] == clip_mask(names@[j]@),
        decreases names@.len() - i,
    {
        let mask: u64 = if text::has_prefix(names[i].as_str(), PACK_RIFLE_PREFIX) {
            UPPER_BODY_MASK
        } else {
            0
        };
        masks.push(mask);
        i += 1;
    }
    let idle_upper_body = match find_name(names, LOCOMOTION_IDLE_CLIP) {
        Some(i) => Some((i, LOWER_BODY_MASK)),
        None => None,
    };
    Some(AnimationPlan { masks, idle_upper_body })
}

/// The clip that plays first.
pub open spec fn default_clip_spec(names: Seq<String>) -> Option<int> {
    let standing = first_named(names, |n: Seq<char>| n == LOCOMOTION_IDLE_CLIP@);
    let idle = first_named(names, |n: Seq<char>| text::lower(n) == "idle"@);
    if standing is Some {
        standing
    } else if idle is Some {
        idle
    } else if names.len() > 0 {
        Some(0)
    } else {
        None
    }
}

/// The clip that plays until the blend takes over: the idle clip of the locomotion pack, else one
/// that is called idle in capital or small letters, else the first.
pub fn default_clip(names: &Vec<String>) -> (place: Option<usize>)
    ensures
        match place {
            Some(i) => default_clip_spec(names@) == Some(i as int),
            None => default_clip_spec(names@) is None,
        },
{
    if let Some(i) = find_name(names, LOCOMOTION_IDLE_CLIP) {
        return Some(i);
    }
    let ghost wanted = |n: Seq<char>| text::lower(n) == "idle"@;
    let idle = text::chars_of("idle");
    let mut i: usize = 0;
    while i < names.len()
        invariant
            i <= names@.len(),
            idle@ == "idle"@,
            wanted == (|n: Seq<char>| text::lower(n) == "idle"@),
            forall|j: int| 0 <= j < i ==> !wanted((#[trigger] names@[j])@),
            first_named(names@, |n: Seq<char>| n == LOCOMOTION_IDLE_CLIP@) is None,
        decreases names@.len() - i,
    {
        let small = text::lower_chars(names[i].as_str());
        if text::same_chars(&small, &idle) {
            proof {
                lemma_first_named(names@, wanted, i as int);
            }
            return Some(i);
        }
        i += 1;
    }
    proof {
        lemma_none_named(names@, wanted);
    }
    if names.len() > 0 {
        Some(0)
    } else {
        None
    }
}

/// The scene of a model: its default scene, else the first one.
pub fn model_scene(default_scene: Option<u64>, first_scene: Option<u64>) -> (scene: Option<u64>)
    ensures
        scene == if default_scene is Some {
            default_scene
        } else {
            first_scene
        },
{
    match default_scene {
        Some(scene) => Some(scene),
        None => first_scene,
    }
}

/// The measures of a model.
pub struct ResolvedMetrics {
    pub stand_height: u32,
    pub eye_height: i32,
    pub eye_forward_offset: i32,
    /// How high the head bone is in the bind pose.
    pub head_bone_y: i32,
    pub head_bone_name: String,
}

/// The measures of the model, once it is there.
pub struct CharacterMetrics {
    pub resolved: Option<ResolvedMetrics>,
}

/// Where the eyes are, as far as it can be tuned.
#[derive(Clone, Copy, Debug, PartialEq, Eq, Structural)]
pub struct BodyTuning {
    /// How high the eyes are above the feet.
    pub eye_height: i32,
    /// How far the eyes are in front of the spine.
    pub eye_forward_offset: i32,
    /// How long the eyes take to their place when first person begins.
    pub eye_lerp_duration: u64,
    /// The model has given the first values.
    pub initialised_from_model: bool,
}

/// How long the eyes take to their place by default.
pub const DEFAULT_EYE_LERP_DURATION: u64 = 300_000_000;

impl BodyTuning {
    /// Nothing is known of the model.
    pub fn new() -> (tuning: Self)
        ensures
            tuning == (BodyTuning {
                eye_height: 0,
                eye_forward_offset: 0,
                eye_lerp_duration: DEFAULT_EYE_LERP_DURATION,
                initialised_from_model: false,
            }),
    {
        BodyTuning {
            eye_height: 0,
            eye_forward_offset: 0,
            eye_lerp_duration: DEFAULT_EYE_LERP_DURATION,
            initialised_from_model: false,
        }
    }
}

/// A model has been loaded: the player takes its height, the radius stays within its bounds, and
/// the tuning takes the place of the eyes, but only from the first model. A model without
/// measures changes nothing.
pub fn consume_loaded_metrics(
    metrics: &mut CharacterMetrics,
    tuning: &mut BodyTuning,
    player: &mut FpsPlayerConfig,
    parsed: Option<ResolvedMetrics>,
)
    requires
        old(player).wf(),
    ensures
        final(player).wf(),
        match parsed {
            Some(m) => {
                &&& final(metrics).resolved == Some(m)
                &&& *final(player) == (FpsPlayerConfig {
                    height: m.stand_height,
                    radius_ratio: clamped(
                        old(player).radius_ratio as int,
                        old(player).min_radius_ratio as int,
                        old(player).max_radius_ratio as int,
                    ) as u32,
                    ..*old(player)
                })
                &&& *final(tuning) == if old(tuning).initialised_from_model {
                    *old(tuning)
                } else {
                    BodyTuning {
                        eye_height: m.eye_height,
                        eye_forward_offset: m.eye_forward_offset,
                        initialised_from_model: true,
                        ..*old(tuning)
                    }
                }
            },
            None => {
                &&& *final(metrics) == *old(metrics)
                &&& *final(player) == *old(player)
                &&& *final(tuning) == *old(tuning)
            },
        },
{
    match parsed {
        Some(m) => {
            player.height = m.stand_height;
            if player.radius_ratio < player.min_radius_ratio {
                player.radius_ratio = player.min_radius_ratio;
            } else if player.radius_ratio > player.max_radius_ratio {
                player.radius_ratio = player.max_radius_ratio;
            }
            if !tuning.initialised_from_model {
                tuning.eye_height = m.eye_height;
                tuning.eye_forward_offset = m.eye_forward_offset;
                tuning.initialised_from_model = true;
            }
            metrics.resolved = Some(m);
        },
        None => {},
    }
}

/// The eyes on their way to their place.
#[derive(Clone, Copy, Debug, PartialEq, Eq, Structural)]
pub struct EyeLerpActive {
    /// Where the eyes were, above the centre of the player.
    pub start_up: i64,
    /// How long they have been under way.
    pub elapsed: u64,
}

/// Whether the eyes are on their way to their place.
#[derive(Clone, Copy, Debug, PartialEq, Eq, Structural)]
pub struct EyeLerp {
    pub active: Option<EyeLerpActive>,
}

/// Sets up the body of a player in first person: hands back the player and the scene if a body is
/// due, and sends the eyes from the top of the capsule on their way where the model is known.
pub fn spawn_body_on_fps_enter(
    lerp: &mut EyeLerp,
    is_fps: bool,
    has_body: bool,
    scene: Option<u64>,
    player: Option<u64>,
    metrics: &CharacterMetrics,
    height: u32,
) -> (body: Option<(u64, u64)>)
    ensures
        body == match (scene, player) {
            (Some(s), Some(p)) => if is_fps && !has_body {
                Some((p, s))
            } else {
                None
            },
            _ => None,
        },
        *final(lerp) == if body is Some && metrics.resolved is Some {
            EyeLerp { active: Some(EyeLerpActive { start_up: (height / 2) as i64, elapsed: 0 }) }
        } else {
            *old(lerp)
        },
{
    if !is_fps || has_body {
        return None;
    }
    match (scene, player) {
        (Some(s), Some(p)) => {
            if metrics.resolved.is_some() {
                lerp.active = Some(EyeLerpActive { start_up: (height / 2) as i64, elapsed: 0 });
            }
            Some((p, s))
        },
        _ => None,
    }
}

/// Takes the bodies down outside first person; tells whether to.
pub fn despawn_body_on_fps_exit(lerp: &mut EyeLerp, is_fps: bool) -> (despawn: bool)
    ensures
        despawn == !is_fps,
        *final(lerp) == if is_fps {
            *old(lerp)
        } else {
            EyeLerp { active: None }
        },
{
    if is_fps {
        return false;
    }
    lerp.active = None;
    true
}

/// The full way of the eyes.
pub const WHOLE_WAY: u32 = 1_000_000_000;

/// The eyes take at least this long to their place.
pub const MIN_EYE_LERP: u64 = 120;

/// A part of a length that can point either way, rounded toward zero.
pub open spec fn scaled(length: int, n: int, d: int) -> int {
    if length >= 0 {
        length * n / d
    } else {
        -(-length * n / d)
    }
}

fn scale(length: i128, n: u32, d: u32, Ghost(bound): Ghost<int>) -> (part: i128)
    requires
        d > 0,
        -bound <= length <= bound,
        0 <= bound <= 0x1_0000_0000_0000_0000,
    ensures
        part == scaled(length as int, n as int, d as int),
        -bound * 0xffff_ffff <= part <= bound * 0xffff_ffff,
{
    let size: u128 = if length >= 0 {
        length as u128
    } else {
        (-length) as u128
    };
    proof {
        assert(0 <= size * n <= bound * 0xffff_ffff) by (nonlinear_arith)
            requires
                0 <= size <= bound,
                0 <= n <= 0xffff_ffff,
        ;
        vstd::arithmetic::div_mod::lemma_div_is_ordered_by_denominator(size * n, 1, d as int);
        vstd::arithmetic::div_mod::lemma_div_basics(size * n);
        vstd::arithmetic::div_mod::lemma_div_pos_is_pos(size * n, d as int);
    }
    let part: u128 = size * n as u128 / d as u128;
    if length >= 0 {
        part as i128
    } else {
        -(part as i128)
    }
}

/// Where the eyes are, from the centre of the player.
#[derive(Clone, Copy, Debug, PartialEq, Eq, Structural)]
pub struct EyeOffset {
    pub up: i128,
    pub forward: i128,
}

/// The place of the eyes at a height: it shrinks with the capsule.
pub open spec fn eye_target(tuning: BodyTuning, height: u32, upright: u32) -> EyeOffset {
    EyeOffset {
        up: (scaled(tuning.eye_height as int, height as int, upright as int) - height / 2) as i128,
        forward: scaled(
            tuning.eye_forward_offset as int,
            height as int,
            upright as int,
        ) as i128,
    }
}

/// How long the eyes take to their place.
pub open spec fn eye_duration(tuning: BodyTuning) -> int {
    if tuning.eye_lerp_duration < MIN_EYE_LERP {
        MIN_EYE_LERP as int
    } else {
        tuning.eye_lerp_duration as int
    }
}

/// The way that the eyes have gone: slow at both ends.
pub open spec fn eased(t: int) -> int {
    t * t * (3 * WHOLE_WAY - 2 * t) / (WHOLE_WAY * WHOLE_WAY)
}

/// The eyes do not leave their way.
pub proof fn lemma_eased_within(t: int)
    requires
        0 <= t <= WHOLE_WAY,
    ensures
        0 <= t * t * (3 * WHOLE_WAY - 2 * t) <= WHOLE_WAY * WHOLE_WAY * WHOLE_WAY,
        0 <= eased(t) <= WHOLE_WAY,
        t == 0 ==> eased(t) == 0,
        t == WHOLE_WAY ==> eased(t) == WHOLE_WAY,
{
    let cube = t * t * (3 * WHOLE_WAY - 2 * t);
    assert(0 <= cube <= WHOLE_WAY * WHOLE_WAY * WHOLE_WAY) by (nonlinear_arith)
        requires
            cube == t * t * (3 * WHOLE_WAY - 2 * t),
            0 <= t <= WHOLE_WAY,
            WHOLE_WAY == 1_000_000_000,
    ;
    assert((t == 0 ==> cube == 0) && (t == WHOLE_WAY ==> cube == WHOLE_WAY * WHOLE_WAY * WHOLE_WAY))
        by (nonlinear_arith)
        requires
            cube == t * t * (3 * WHOLE_WAY - 2 * t),
    ;
    assert(eased(t) == cube / 1_000_000_000_000_000_000);
}

/// The eyes after a frame: `None` as long as the model is not known.
pub open spec fn eyes(
    tuning: BodyTuning,
    lerp: EyeLerp,
    height: u32,
    upright: u32,
    dt: u64,
) -> Option<EyeOffset> {
    let target = eye_target(tuning, height, upright);
    if !tuning.initialised_from_model {
        None
    } else {
        match lerp.active {
            Some(active) => if active.elapsed + dt >= eye_duration(tuning) {
                Some(target)
            } else {
                let way = eased((active.elapsed + dt) * WHOLE_WAY / eye_duration(tuning));
                Some(
                    EyeOffset {
                        up: (scaled(active.start_up as int, WHOLE_WAY - way, WHOLE_WAY as int)
                            + scaled(target.up as int, way, WHOLE_WAY as int)) as i128,
                        forward: scaled(target.forward as int, way, WHOLE_WAY as int) as i128,
                    },
                )
            },
            None => Some(target),
        }
    }
}

/// Moves the eyes on by a frame of length `dt` and tells where they are. Without a model the
/// answer is `None`.
pub fn eye_offset(
    tuning: &BodyTuning,
    lerp: &mut EyeLerp,
    height: u32,
    upright: u32,
    dt: u64,
) -> (offset: Option<EyeOffset>)
    requires
        upright > 0,
    ensures
        offset == eyes(*tuning, *old(lerp), height, upright, dt),
        *final(lerp) == match old(lerp).active {
            Some(active) if tuning.initialised_from_model => if active.elapsed + dt
                >= eye_duration(*tuning) {
                EyeLerp { active: None }
            } else {
                EyeLerp {
                    active: Some(
                        EyeLerpActive { elapsed: (active.elapsed + dt) as u64, ..active },
                    ),
                }
            },
            _ => *old(lerp),
        },
{
    if !tuning.initialised_from_model {
        return None;
    }
    let up: i128 = scale(tuning.eye_height as i128, height, upright, Ghost(0x8000_0000)) - (height
        / 2) as i128;
    let forward: i128 = scale(
        tuning.eye_forward_offset as i128,
        height,
        upright,
        Ghost(0x8000_0000),
    );
    let duration: u64 = if tuning.eye_lerp_duration < MIN_EYE_LERP {
        MIN_EYE_LERP
    } else {
        tuning.eye_lerp_duration
    };
    let active = match lerp.active {
        Some(active) => active,
        None => {
            return Some(EyeOffset { up, forward });
        },
    };
    if active.elapsed >= duration || dt >= duration - active.elapsed {
        lerp.active = None;
        return Some(EyeOffset { up, forward });
    }
    let elapsed: u64 = active.elapsed + dt;
    let way: u32 = way_gone(elapsed, duration);
    lerp.active = Some(EyeLerpActive { start_up: active.start_up, elapsed });
    let from: i128 = scale(
        active.start_up as i128,
        WHOLE_WAY - way,
        WHOLE_WAY,
        Ghost(0x8000_0000_0000_0000),
    );
    let to: i128 = scale(up, way, WHOLE_WAY, Ghost(0x1_0000_0000_0000_0000));
    Some(
        EyeOffset {
            up: from + to,
            forward: scale(forward, way, WHOLE_WAY, Ghost(0x1_0000_0000_0000_0000)),
        },
    )
}

/// The way that the eyes have gone after `elapsed`.
fn way_gone(elapsed: u64, duration: u64) -> (way: u32)
    requires
        elapsed < duration,
    ensures
        way == eased(elapsed * WHOLE_WAY / (duration as int)),
        way <= WHOLE_WAY,
{
    proof {
        assert(0 <= elapsed * WHOLE_WAY <= 0xffff_ffff_ffff_ffff * 1_000_000_000)
            by (nonlinear_arith)
            requires
                0 <= elapsed <= 0xffff_ffff_ffff_ffff,
                WHOLE_WAY == 1_000_000_000,
        ;
    }
    let t: u128 = elapsed as u128 * WHOLE_WAY as u128 / duration as u128;
    proof {
        let product = elapsed * WHOLE_WAY;
        vstd::arithmetic::div_mod::lemma_fundamental_div_mod(product, duration as int);
        let r = product % (duration as int);
        assert(0 <= t <= WHOLE_WAY) by (nonlinear_arith)
            requires
                product == duration * t + r,
                product == elapsed * WHOLE_WAY,
                0 <= r,
                elapsed < duration,
                0 <= t,
        ;
        lemma_eased_within(t as int);
        assert(0 <= t * t <= WHOLE_WAY * WHOLE_WAY) by (nonlinear_arith)
            requires
                0 <= t <= WHOLE_WAY,
        ;
    }
    let rest: u128 = 3_000_000_000 - 2 * t;
    (t * t * rest / 1_000_000_000_000_000_000) as u32
}

/// The eyes do not jump when first person begins: in the first instant they are where they were.
pub proof fn lemma_eyes_start_where_they_were(tuning: BodyTuning, start: i64, height: u32, upright:
    u32)
    requires
        tuning.initialised_from_model,
    ensures
        eyes(
            tuning,
            EyeLerp { active: Some(EyeLerpActive { start_up: start, elapsed: 0 }) },
            height,
            upright,
            0,
        ) == Some(EyeOffset { up: start as i128, forward: 0 }),
{
    let d = eye_duration(tuning);
    assert(0 * WHOLE_WAY / d == 0) by (nonlinear_arith)
        requires
            d > 0,
    ;
    lemma_eased_within(0);
    let target = eye_target(tuning, height, upright);
    assert(scaled(target.up as int, 0, WHOLE_WAY as int) == 0);
    assert(scaled(target.forward as int, 0, WHOLE_WAY as int) == 0);
    assert(scaled(start as int, WHOLE_WAY as int, WHOLE_WAY as int) == start);
}

/// The height of a crouching player as a part of its upright height, at most the whole.
pub open spec fn ratio_of(height: int, upright: int) -> int {
    if upright == 0 || height >= upright {
        WHOLE_WAY as int
    } else {
        height * WHOLE_WAY / upright
    }
}

/// Where the head should be above the feet: as high as in the bind pose, less as far as the
/// player crouches.
pub fn locked_head_height(head_bone_y: i32, height: u32, upright: u32) -> (y: i128)
    ensures
        y == scaled(
            head_bone_y as int,
            ratio_of(height as int, upright as int),
            WHOLE_WAY as int,
        ),
{
    let ratio: u32 = if upright == 0 || height >= upright {
        WHOLE_WAY
    } else {
        proof {
            assert(0 <= height * WHOLE_WAY <= 0xffff_ffff * 1_000_000_000) by (nonlinear_arith)
                requires
                    0 <= height <= 0xffff_ffff,
                    WHOLE_WAY == 1_000_000_000,
            ;
            let product = height * WHOLE_WAY;
            let q = product / (upright as int);
            vstd::arithmetic::div_mod::lemma_fundamental_div_mod(product, upright as int);
            let r = product % (upright as int);
            assert(0 <= q <= WHOLE_WAY) by (nonlinear_arith)
                requires
                    product == upright * q + r,
                    product == height * WHOLE_WAY,
                    0 <= r < upright,
                    0 <= height < upright,
            ;
        }
        (height as u64 * WHOLE_WAY as u64 / upright as u64) as u32
    };
    scale(head_bone_y as i128, ratio, WHOLE_WAY, Ghost(0x8000_0000))
}

/// The bones of the right arm.
#[derive(Clone, Copy, Debug, PartialEq, Eq, Structural)]
pub struct RightArm {
    pub arm: u64,
    pub fore_arm: u64,
    pub hand: u64,
}

/// The body of a player and how far it has been set up.
pub struct BodyVisual {
    /// The player that the body belongs to.
    pub logical_entity: u64,
    pub head_hidden: bool,
    pub head_meshes_hidden: bool,
    pub frustum_culling_disabled: bool,
    pub masks_populated: bool,
    /// The entity that plays the clips.
    pub animation_player: Option<u64>,
    pub head_bone_entity: Option<u64>,
    pub right_arm_entity: Option<u64>,
    /// The bones of the right index finger, from the palm to the tip.
    pub right_index_bones: Vec<u64>,
    pub arm: ArmState,
}

impl BodyVisual {
    /// Nothing but the player is known.
    pub open spec fn fresh(&self, logical_entity: u64) -> bool {
        &&& self.logical_entity == logical_entity
        &&& !self.head_hidden
        &&& !self.head_meshes_hidden
        &&& !self.frustum_culling_disabled
        &&& !self.masks_populated
        &&& self.animation_player is None
        &&& self.head_bone_entity is None
        &&& self.right_arm_entity is None
        &&& self.right_index_bones@ == Seq::<u64>::empty()
        &&& self.arm == (ArmState { point_amount: 0, charge: 0, cooldown: 0, rumble: None })
    }

    /// The body of a player before its scene is there.
    pub fn new(logical_entity: u64) -> (body: Self)
        ensures
            body.fresh(logical_entity),
    {
        BodyVisual {
            logical_entity,
            head_hidden: false,
            head_meshes_hidden: false,
            frustum_culling_disabled: false,
            masks_populated: false,
            animation_player: None,
            head_bone_entity: None,
            right_arm_entity: None,
            right_index_bones: Vec::new(),
            arm: ArmState::new(),
        }
    }

    /// The head bone to shrink, as long as that has not been done and the bone is there.
    pub fn head_to_hide(&self, scene: &SceneTree, root: usize, metrics: &CharacterMetrics) -> (head:
        Option<u64>)
        requires
            scene.wf(),
            root < scene.nodes@.len(),
        ensures
            head == match metrics.resolved {
                Some(m) if !self.head_hidden => scene.found(
                    root as int,
                    scene.named(m.head_bone_name@),
                ),
                _ => None,
            },
    {
        if self.head_hidden {
            return None;
        }
        match &metrics.resolved {
            Some(m) => scene.find_descendant_by_name(root, m.head_bone_name.as_str()),
            None => None,
        }
    }

    /// The head bone has been shrunk.
    pub fn head_was_hidden(&mut self, head: u64)
        ensures
            *final(self) == (BodyVisual {
                head_hidden: true,
                head_bone_entity: Some(head),
                ..*old(self)
            }),
    {
        self.head_hidden = true;
        self.head_bone_entity = Some(head);
    }

    /// The meshes of the head to hide in this frame. The search goes on from frame to frame until
    /// it finds some, since the scene comes in bit by bit; `can_hide` says which entities have a
    /// visibility.
    pub fn hide_head_attached_meshes(
        &mut self,
        scene: &SceneTree,
        root: usize,
        can_hide: &Vec<bool>,
    ) -> (entities: Vec<u64>)
        requires
            scene.wf(),
            root < scene.nodes@.len(),
            can_hide@.len() == scene.nodes@.len(),
        ensures
            entities@ == if old(self).head_meshes_hidden {
                Seq::empty()
            } else {
                all_of(scene.walk(root as int), scene.hair(can_hide@)).map_values(
                    |i: int| scene.nodes@[i].entity,
                )
            },
            *final(self) == (BodyVisual {
                head_meshes_hidden: old(self).head_meshes_hidden || entities@.len() > 0,
                ..*old(self)
            }),
    {
        if self.head_meshes_hidden {
            return Vec::new();
        }
        let entities = scene.meshes_to_hide(root, can_hide);
        if entities.len() > 0 {
            self.head_meshes_hidden = true;
        }
        entities
    }

    /// The meshes to keep from being culled in this frame. The search goes on until it finds some.
    pub fn disable_body_frustum_culling(
        &mut self,
        scene: &SceneTree,
        root: usize,
        is_mesh: &Vec<bool>,
    ) -> (entities: Vec<u64>)
        requires
            scene.wf(),
            root < scene.nodes@.len(),
            is_mesh@.len() == scene.nodes@.len(),
        ensures
            entities@ == if old(self).frustum_culling_disabled {
                Seq::empty()
            } else {
                all_of(scene.walk(root as int), Set::new(|i: int| is_mesh@[i])).map_values(
                    |i: int| scene.nodes@[i].entity,
                )
            },
            *final(self) == (BodyVisual {
                frustum_culling_disabled: old(self).frustum_culling_disabled || entities@.len() > 0,
                ..*old(self)
            }),
    {
        if self.frustum_culling_disabled {
            return Vec::new();
        }
        let entities = scene.descendants_with(root, is_mesh);
        if entities.len() > 0 {
            self.frustum_culling_disabled = true;
        }
        entities
    }

    /// The mask groups of the bones to enter into the animation graph in this frame. The search
    /// goes on until it finds some.
    pub fn populate_bone_mask_groups(
        &mut self,
        scene: &SceneTree,
        root: usize,
        animated: &Vec<bool>,
    ) -> (groups: Vec<(u64, u64)>)
        requires
            scene.wf(),
            root < scene.nodes@.len(),
            animated@.len() == scene.nodes@.len(),
        ensures
            old(self).masks_populated ==> groups@.len() == 0,
            !old(self).masks_populated ==> groups@ == all_of(
                scene.walk(root as int),
                scene.grouped(animated@),
            ).map_values(
                |i: int|
                    (scene.nodes@[i].entity, mask_group(stem_of(scene.name_at(i)->0))),
            ),
            *final(self) == (BodyVisual {
                masks_populated: old(self).masks_populated || groups@.len() > 0,
                ..*old(self)
            }),
    {
        if self.masks_populated {
            return Vec::new();
        }
        let groups = scene.bone_mask_groups(root, animated);
        if groups.len() > 0 {
            self.masks_populated = true;
        }
        groups
    }

    /// Finds the entity that plays the clips, once the scene has children; hands it back in the
    /// frame in which it is found.
    pub fn install_animation_player(
        &mut self,
        scene: &SceneTree,
        root: usize,
        has_player: &Vec<bool>,
    ) -> (player: Option<u64>)
        requires
            scene.wf(),
            root < scene.nodes@.len(),
            has_player@.len() == scene.nodes@.len(),
        ensures
            player == if old(self).animation_player is Some
                || scene.nodes@[root as int].children@.len() == 0 {
                None
            } else {
                scene.found(root as int, Set::new(|i: int| has_player@[i]))
            },
            *final(self) == (BodyVisual {
                animation_player: if player is Some {
                    player
                } else {
                    old(self).animation_player
                },
                ..*old(self)
            }),
    {
        if self.animation_player.is_some() || scene.nodes[root].children.len() == 0 {
            return None;
        }
        match scene.find_descendant_with(root, has_player) {
            Some(player) => {
                self.animation_player = Some(player);
                Some(player)
            },
            None => None,
        }
    }

    /// The bones of the right arm, as long as they have not been noted and all of them are there.
    pub fn right_arm_to_cache(&self, scene: &SceneTree, root: usize) -> (found: Option<RightArm>)
        requires
            scene.wf(),
            root < scene.nodes@.len(),
        ensures
            found == match (
                scene.found(root as int, scene.stemmed(BONE_RIGHT_ARM@)),
                scene.found(root as int, scene.stemmed(BONE_RIGHT_FORE_ARM@)),
                scene.found(root as int, scene.stemmed(BONE_RIGHT_HAND@)),
            ) {
                (Some(arm), Some(fore_arm), Some(hand)) if self.right_arm_entity is None => Some(
                    RightArm { arm, fore_arm, hand },
                ),
                _ => None,
            },
    {
        if self.right_arm_entity.is_some() {
            return None;
        }
        let arm = scene.find_descendant_by_bone_stem(root, BONE_RIGHT_ARM);
        let fore_arm = scene.find_descendant_by_bone_stem(root, BONE_RIGHT_FORE_ARM);
        let hand = scene.find_descendant_by_bone_stem(root, BONE_RIGHT_HAND);
        match (arm, fore_arm, hand) {
            (Some(arm), Some(fore_arm), Some(hand)) => Some(RightArm { arm, fore_arm, hand }),
            _ => None,
        }
    }

    /// Notes the right arm and the bones of the index finger below the hand.
    pub fn cache_right_arm(&mut self, scene: &SceneTree, arm: RightArm, hand: usize)
        requires
            scene.wf(),
            hand < scene.nodes@.len(),
        ensures
            final(self).right_index_bones@ == sorted_by_stem(
                scene.finger_bones(hand as int),
            ).map_values(|b: (Seq<char>, u64)| b.1),
            *final(self) == (BodyVisual {
                right_arm_entity: Some(arm.arm),
                right_index_bones: final(self).right_index_bones,
                ..*old(self)
            }),
    {
        self.right_index_bones = scene.collect_index_finger_bones(hand);
        self.right_arm_entity = Some(arm.arm);
    }
}

/// A part of a length, up to rounding toward zero.
proof fn lemma_scaled_in_proportion(length: int, n: int, d: int)
    requires
        n >= 0,
        d > 0,
    ensures
        length >= 0 ==> scaled(length, n, d) * d <= length * n < (scaled(length, n, d) + 1) * d,
        length <= 0 ==> (scaled(length, n, d) - 1) * d < length * n <= scaled(length, n, d) * d,
        n == d ==> scaled(length, n, d) == length,
        n == 0 ==> scaled(length, n, d) == 0,
{
    let size = if length >= 0 {
        length
    } else {
        -length
    };
    lemma_quotient(size * n, d);
    let q = size * n / d;
    if length < 0 {
        assert((-q - 1) * d < length * n <= -q * d) by (nonlinear_arith)
            requires
                size == -length,
                q * d <= size * n < (q + 1) * d,
        ;
    }
    if length == 0 {
        assert(size * n == 0 && length * n == 0) by (nonlinear_arith)
            requires
                size == 0,
                length == 0,
        ;
        vstd::arithmetic::div_mod::lemma_div_basics(d);
        assert((0 - 1) * d < 0);
    }
    if n == d {
        vstd::arithmetic::div_mod::lemma_div_by_multiple(size, d);
    }
    if n == 0 {
        assert(size * 0 == 0);
        vstd::arithmetic::div_mod::lemma_div_basics(d);
    }
}

/// At rest the eyes are at their height above the feet, which shrinks with the capsule; it is told
/// from the centre, half the height up. How far they are in front shrinks likewise.
pub proof fn lemma_eyes_rest_in_their_place(
    tuning: BodyTuning,
    lerp: &mut EyeLerp,
    height: u32,
    upright: u32,
    dt: u64,
    offset: Option<EyeOffset>,
)
    requires
        upright > 0,
        call_ensures(eye_offset, (&tuning, lerp, height, upright, dt), offset),
        old(lerp).active is None,
    ensures
        offset is Some <==> tuning.initialised_from_model,
        offset matches Some(eye) ==> {
            let up = eye.up + height / 2;
            &&& height == upright ==> up == tuning.eye_height && eye.forward
                == tuning.eye_forward_offset
            &&& tuning.eye_height >= 0 ==> up * upright <= tuning.eye_height * height < (up + 1)
                * upright
            &&& tuning.eye_height <= 0 ==> (up - 1) * upright < tuning.eye_height * height <= up
                * upright
            &&& tuning.eye_forward_offset >= 0 ==> eye.forward * upright
                <= tuning.eye_forward_offset * height < (eye.forward + 1) * upright
            &&& tuning.eye_forward_offset <= 0 ==> (eye.forward - 1) * upright
                < tuning.eye_forward_offset * height <= eye.forward * upright
        },
        final(lerp).active is None,
{
    lemma_scaled_in_proportion(tuning.eye_height as int, height as int, upright as int);
    lemma_scaled_in_proportion(tuning.eye_forward_offset as int, height as int, upright as int);
    lemma_target_fits(tuning, height, upright);
}

/// The place of the eyes stays within machine numbers.
proof fn lemma_target_fits(tuning: BodyTuning, height: u32, upright: u32)
    requires
        upright > 0,
    ensures
        eye_target(tuning, height, upright).up == scaled(
            tuning.eye_height as int,
            height as int,
            upright as int,
        ) - height / 2,
        eye_target(tuning, height, upright).forward == scaled(
            tuning.eye_forward_offset as int,
            height as int,
            upright as int,
        ),
        -0x1_0000_0000_0000_0000 <= eye_target(tuning, height, upright).up
            <= 0x1_0000_0000_0000_0000,
{
    lemma_scaled_size(tuning.eye_height as int, height as int, upright as int);
    lemma_scaled_size(tuning.eye_forward_offset as int, height as int, upright as int);
}

proof fn lemma_scaled_size(length: int, n: int, d: int)
    requires
        -0x8000_0000 <= length <= 0x8000_0000,
        0 <= n <= 0xffff_ffff,
        d > 0,
    ensures
        -0x8000_0000_0000_0000 <= scaled(length, n, d) <= 0x8000_0000_0000_0000,
{
    let size = if length >= 0 {
        length
    } else {
        -length
    };
    assert(0 <= size * n <= 0x8000_0000 * 0xffff_ffff) by (nonlinear_arith)
        requires
            0 <= size <= 0x8000_0000,
            0 <= n <= 0xffff_ffff,
    ;
    vstd::arithmetic::div_mod::lemma_div_is_ordered_by_denominator(size * n, 1, d);
    vstd::arithmetic::div_mod::lemma_div_basics(size * n);
    vstd::arithmetic::div_mod::lemma_div_pos_is_pos(size * n, d);
}

/// Whether `way` is how far one has come after the part `t`, slow at both ends: three times the
/// square less twice the cube, up to rounding.
pub open spec fn is_smooth(way: int, t: int) -> bool {
    let whole = 1_000_000_000int;
    way * (whole * whole) <= t * t * (3 * whole - 2 * t) < (way + 1) * (whole * whole)
}

/// The eyes are under way for as long as it takes, and then in their place. On the way they lie
/// between where they were and their place, as far as they have come; in front they start from the
/// spine.
pub proof fn lemma_eyes_glide_to_their_place(
    tuning: BodyTuning,
    lerp: &mut EyeLerp,
    height: u32,
    upright: u32,
    dt: u64,
    offset: Option<EyeOffset>,
    resting: &mut EyeLerp,
    place: Option<EyeOffset>,
)
    requires
        upright > 0,
        tuning.initialised_from_model,
        call_ensures(eye_offset, (&tuning, lerp, height, upright, dt), offset),
        call_ensures(eye_offset, (&tuning, resting, height, upright, dt), place),
        old(lerp).active is Some,
        old(resting).active is None,
    ensures
        ({
            let active = old(lerp).active->0;
            let elapsed = active.elapsed + dt;
            let takes = if tuning.eye_lerp_duration < 120 {
                120int
            } else {
                tuning.eye_lerp_duration as int
            };
            let whole = 1_000_000_000int;
            let goal = place->0;
            &&& offset is Some
            &&& elapsed >= takes ==> offset == place && final(lerp).active is None
            &&& elapsed < takes ==> {
                &&& final(lerp).active == Some(
                    EyeLerpActive { start_up: active.start_up, elapsed: elapsed as u64 },
                )
                &&& exists|t: int, way: int|
                    {
                        &&& t * takes <= elapsed * whole < (t + 1) * takes
                        &&& #[trigger] is_smooth(way, t)
                        &&& offset->0.forward == scaled(goal.forward as int, way, whole)
                        &&& offset->0.up == scaled(active.start_up as int, whole - way, whole)
                            + scaled(goal.up as int, way, whole)
                    }
            }
        }),
{
    let active = old(lerp).active->0;
    let elapsed = active.elapsed + dt;
    let takes = eye_duration(tuning);
    if elapsed < takes {
        let t = elapsed * WHOLE_WAY / takes;
        let way = eased(t);
        lemma_quotient(elapsed * WHOLE_WAY, takes);
        assert(0 <= t <= WHOLE_WAY) by (nonlinear_arith)
            requires
                t * takes <= elapsed * WHOLE_WAY < (t + 1) * takes,
                0 <= elapsed < takes,
                WHOLE_WAY == 1_000_000_000,
        ;
        lemma_eased_within(t);
        lemma_quotient(t * t * (3 * WHOLE_WAY - 2 * t), WHOLE_WAY * WHOLE_WAY);
        assert(is_smooth(way, t));
        lemma_target_fits(tuning, height, upright);
        let target = eye_target(tuning, height, upright);
        lemma_part_fits(active.start_up as int, WHOLE_WAY - way);
        lemma_part_fits(target.up as int, way);
        lemma_scaled_size(tuning.eye_forward_offset as int, height as int, upright as int);
        lemma_part_fits(target.forward as int, way);
    }
}

proof fn lemma_part_fits(length: int, way: int)
    requires
        -0x1_0000_0000_0000_0000 <= length <= 0x1_0000_0000_0000_0000,
        0 <= way <= WHOLE_WAY,
    ensures
        -0x1_0000_0000_0000_0000 <= scaled(length, way, WHOLE_WAY as int)
            <= 0x1_0000_0000_0000_0000,
{
    let size = if length >= 0 {
        length
    } else {
        -length
    };
    let q = size * way / (WHOLE_WAY as int);
    lemma_quotient(size * way, WHOLE_WAY as int);
    assert(0 <= size * way <= size * WHOLE_WAY) by (nonlinear_arith)
        requires
            size >= 0,
            0 <= way <= WHOLE_WAY,
    ;
    assert(0 <= q <= size) by (nonlinear_arith)
        requires
            q * WHOLE_WAY <= size * way,
            size * way <= size * WHOLE_WAY,
            0 <= size * way < (q + 1) * WHOLE_WAY,
            WHOLE_WAY > 0,
    ;
}

/// The head of an upright player is as high as in the bind pose; of one that crouches it is lower
/// in proportion, up to rounding.
pub proof fn lemma_heads_sink_with_the_crouch(head: i32, height: u32, upright: u32, y: i128)
    requires
        call_ensures(locked_head_height, (head, height, upright), y),
    ensures
        height >= upright ==> y == head,
        height < upright && head >= 0 ==> y * upright <= head * height <= (y + 4) * upright,
        height < upright && head < 0 ==> (y - 4) * upright <= head * height <= y * upright,
{
    let ratio = ratio_of(height as int, upright as int);
    lemma_scaled_in_proportion(head as int, ratio, WHOLE_WAY as int);
    if height < upright {
        lemma_quotient(height * WHOLE_WAY, upright as int);
        let size = if head >= 0 {
            head as int
        } else {
            -head
        };
        let v = if head >= 0 {
            y as int
        } else {
            -y
        };
        assert(v * WHOLE_WAY <= size * ratio < (v + 1) * WHOLE_WAY) by {
            if head < 0 {
                assert(-y * WHOLE_WAY <= -head * ratio < (-y + 1) * WHOLE_WAY) by (nonlinear_arith)
                    requires
                        (y - 1) * WHOLE_WAY < head * ratio <= y * WHOLE_WAY,
                ;
            }
        }
        let w: int = WHOLE_WAY as int;
        let u = upright as int;
        let h = height as int;
        assert(v * w * u <= size * ratio * u) by (nonlinear_arith)
            requires
                v * w <= size * ratio,
                u > 0,
        ;
        assert(size * ratio * u <= size * (h * w)) by (nonlinear_arith)
            requires
                ratio * u <= h * w,
                size >= 0,
        ;
        assert(size * (h * w) <= size * ((ratio + 1) * u)) by (nonlinear_arith)
            requires
                h * w < (ratio + 1) * u,
                size >= 0,
        ;
        assert(size * ((ratio + 1) * u) <= (v + 4) * w * u) by (nonlinear_arith)
            requires
                size * ratio < (v + 1) * w,
                0 <= size <= 3 * w,
                u > 0,
        ;
        let low = v * u;
        let mid = size * h;
        let top = (v + 4) * u;
        assert(low * w <= mid * w <= top * w) by (nonlinear_arith)
            requires
                v * w * u <= size * (h * w) <= (v + 4) * w * u,
                low == v * u,
                mid == size * h,
                top == (v + 4) * u,
        ;
        assert(low <= mid <= top) by (nonlinear_arith)
            requires
                low * w <= mid * w <= top * w,
                w > 0,
        ;
        if head < 0 {
            assert((y - 4) * upright <= head * height <= y * upright) by (nonlinear_arith)
                requires
                    (-y) * upright <= (-head) * height <= (-y + 4) * upright,
            ;
        }
    } else {
        assert(ratio == WHOLE_WAY);
    }
}

/// The rifle pack moves the lower body alone, every other clip the whole body; and the idle clip
/// plays once more on the upper body alone.
pub proof fn lemma_packs_move_their_part(
    names: Vec<String>,
    has_animations: bool,
    plan: Option<AnimationPlan>,
    i: int,
)
    requires
        call_ensures(plan_animation_graph, (&names, has_animations), plan),
        0 <= i < names@.len(),
    ensures
        plan is Some <==> has_animations,
        plan matches Some(p) ==> {
            &&& text::starts_with(names@[i]@, "rifle-8-way/"@) ==> p.masks@[i] == 1
            &&& !text::starts_with(names@[i]@, "rifle-8-way/"@) ==> p.masks@[i] == 0
            &&& names@[i]@ == "locomotion/idle"@ ==> p.idle_upper_body is Some
            &&& p.idle_upper_body matches Some((k, mask)) ==> {
                &&& mask == 2
                &&& k < names@.len()
                &&& names@[k as int]@ == "locomotion/idle"@
            }
        },
{
    let wanted = |n: Seq<char>| n == LOCOMOTION_IDLE_CLIP@;
    lemma_first_named_is_first(names@, wanted);
}

proof fn lemma_first_named_is_first(names: Seq<String>, wanted: spec_fn(Seq<char>) -> bool)
    ensures
        first_named(names, wanted) is None <==> forall|j: int|
            0 <= j < names.len() ==> !wanted((#[trigger] names[j])@),
        first_named(names, wanted) matches Some(i) ==> 0 <= i < names.len() && wanted(names[i]@)
            && forall|j: int| 0 <= j < i ==> !wanted((#[trigger] names[j])@),
    decreases names.len(),
{
    if names.len() > 0 {
        let rest = names.drop_last();
        lemma_first_named_is_first(rest, wanted);
        if first_named(rest, wanted) is None {
            assert forall|j: int| 0 <= j < names.len() - 1 implies !wanted(
                (#[trigger] names[j])@,
            ) by {
                assert(rest[j] == names[j]);
            }
        } else {
            let i = first_named(rest, wanted)->0;
            assert(rest[i] == names[i]);
            assert forall|j: int| 0 <= j < i implies !wanted((#[trigger] names[j])@) by {
                assert(rest[j] == names[j]);
            }
        }
    }
}

/// The clip that plays first is the idle clip of the locomotion pack, if there is one, else the
/// first that is called idle in any letters, else the first of all.
pub proof fn lemma_bodies_idle_at_first(names: Vec<String>, place: Option<usize>, j: int)
    requires
        call_ensures(default_clip, (&names,), place),
        0 <= j < names@.len(),
    ensures
        place is Some,
        ({
            let i = place->0 as int;
            &&& 0 <= i < names@.len()
            &&& names@[j]@ == "locomotion/idle"@ ==> names@[i]@ == "locomotion/idle"@ && i <= j
            &&& text::lower(names@[j]@) == "idle"@ ==> names@[i]@ == "locomotion/idle"@ || (
            text::lower(names@[i]@) == "idle"@ && i <= j)
            &&& i != 0 ==> names@[i]@ == "locomotion/idle"@ || text::lower(names@[i]@) == "idle"@
        }),
{
    lemma_first_named_is_first(names@, |n: Seq<char>| n == LOCOMOTION_IDLE_CLIP@);
    lemma_first_named_is_first(names@, |n: Seq<char>| text::lower(n) == "idle"@);
}

/// A model gives the player its height, and the eyes their place if it is the first; the radius is
/// held within its bounds. Without measures nothing changes.
pub proof fn lemma_models_give_their_measures(
    metrics: &mut CharacterMetrics,
    tuning: &mut BodyTuning,
    player: &mut FpsPlayerConfig,
    parsed: Option<ResolvedMetrics>,
)
    requires
        old(player).wf(),
        call_ensures(consume_loaded_metrics, (metrics, tuning, player, parsed), ()),
    ensures
        parsed is None ==> *final(metrics) == *old(metrics) && *final(tuning) == *old(tuning)
            && *final(player) == *old(player),
        parsed matches Some(m) ==> {
            let before = *old(player);
            let after = *final(player);
            &&& final(metrics).resolved == parsed
            &&& after.height == m.stand_height
            &&& before.radius_ratio < before.min_radius_ratio ==> after.radius_ratio
                == before.min_radius_ratio
            &&& before.radius_ratio > before.max_radius_ratio ==> after.radius_ratio
                == before.max_radius_ratio
            &&& before.min_radius_ratio <= before.radius_ratio <= before.max_radius_ratio
                ==> after.radius_ratio == before.radius_ratio
            &&& old(tuning).initialised_from_model ==> *final(tuning) == *old(tuning)
            &&& !old(tuning).initialised_from_model ==> {
                &&& final(tuning).eye_height == m.eye_height
                &&& final(tuning).eye_forward_offset == m.eye_forward_offset
                &&& final(tuning).initialised_from_model
                &&& final(tuning).eye_lerp_duration == old(tuning).eye_lerp_duration
            }
        },
{
}

/// A body is set up in first person, once, when the scene and the player are there; where the model
/// is known the eyes then start from the top of the capsule. Outside first person it is taken down.
pub proof fn lemma_bodies_come_and_go(
    lerp: &mut EyeLerp,
    is_fps: bool,
    has_body: bool,
    scene: Option<u64>,
    player: Option<u64>,
    metrics: CharacterMetrics,
    height: u32,
    body: Option<(u64, u64)>,
    later: &mut EyeLerp,
    despawn: bool,
)
    requires
        call_ensures(
            spawn_body_on_fps_enter,
            (lerp, is_fps, has_body, scene, player, &metrics, height),
            body,
        ),
        call_ensures(despawn_body_on_fps_exit, (later, is_fps), despawn),
    ensures
        body is Some <==> is_fps && !has_body && scene is Some && player is Some,
        body matches Some(found) ==> Some(found.0) == player && Some(found.1) == scene,
        body is Some && metrics.resolved is Some ==> final(lerp).active == Some(
            EyeLerpActive { start_up: (height / 2) as i64, elapsed: 0 },
        ),
        body is None || metrics.resolved is None ==> *final(lerp) == *old(lerp),
        despawn <==> !is_fps,
        is_fps ==> *final(later) == *old(later),
        !is_fps ==> final(later).active is None,
{
}

/// What is set up once is looked for until it is found and then left alone: the meshes of the head,
/// the meshes to keep from being culled and the mask groups of the bones.
pub proof fn lemma_bodies_are_set_up_once(
    body: &mut BodyVisual,
    scene: SceneTree,
    root: usize,
    flags: Vec<bool>,
    meshes: Vec<u64>,
    other: &mut BodyVisual,
    culled: Vec<u64>,
    third: &mut BodyVisual,
    groups: Vec<(u64, u64)>,
)
    requires
        call_ensures(BodyVisual::hide_head_attached_meshes, (body, &scene, root, &flags), meshes),
        call_ensures(
            BodyVisual::disable_body_frustum_culling,
            (other, &scene, root, &flags),
            culled,
        ),
        call_ensures(
            BodyVisual::populate_bone_mask_groups,
            (third, &scene, root, &flags),
            groups,
        ),
    ensures
        old(body).head_meshes_hidden ==> meshes@.len() == 0 && final(body).head_meshes_hidden,
        !old(body).head_meshes_hidden ==> (final(body).head_meshes_hidden <==> meshes@.len() > 0),
        old(other).frustum_culling_disabled ==> culled@.len() == 0
            && final(other).frustum_culling_disabled,
        !old(other).frustum_culling_disabled ==> (final(other).frustum_culling_disabled
            <==> culled@.len() > 0),
        old(third).masks_populated ==> groups@.len() == 0 && final(third).masks_populated,
        !old(third).masks_populated ==> (final(third).masks_populated <==> groups@.len() > 0),
        final(body).animation_player == old(body).animation_player,
        final(body).head_bone_entity == old(body).head_bone_entity,
{
}

/// While they are looked for, these are the same as the scene lists itself.
pub proof fn lemma_bodies_show_what_the_scene_holds(
    body: &mut BodyVisual,
    scene: SceneTree,
    root: usize,
    flags: Vec<bool>,
    meshes: Vec<u64>,
    hair: Vec<u64>,
    other: &mut BodyVisual,
    culled: Vec<u64>,
    marked: Vec<u64>,
    third: &mut BodyVisual,
    groups: Vec<(u64, u64)>,
    masks: Vec<(u64, u64)>,
)
    requires
        call_ensures(BodyVisual::hide_head_attached_meshes, (body, &scene, root, &flags), meshes),
        call_ensures(SceneTree::meshes_to_hide, (&scene, root, &flags), hair),
        call_ensures(
            BodyVisual::disable_body_frustum_culling,
            (other, &scene, root, &flags),
            culled,
        ),
        call_ensures(SceneTree::descendants_with, (&scene, root, &flags), marked),
        call_ensures(
            BodyVisual::populate_bone_mask_groups,
            (third, &scene, root, &flags),
            groups,
        ),
        call_ensures(SceneTree::bone_mask_groups, (&scene, root, &flags), masks),
    ensures
        !old(body).head_meshes_hidden ==> meshes@ == hair@,
        !old(other).frustum_culling_disabled ==> culled@ == marked@,
        !old(third).masks_populated ==> groups@ == masks@,
{
}

/// The entity that plays the clips is looked for once the scene has children, until it is found; then
/// it stays.
pub proof fn lemma_the_player_of_clips_is_found_once(
    body: &mut BodyVisual,
    scene: SceneTree,
    root: usize,
    flags: Vec<bool>,
    player: Option<u64>,
    first: Option<u64>,
)
    requires
        call_ensures(
            BodyVisual::install_animation_player,
            (body, &scene, root, &flags),
            player,
        ),
        call_ensures(SceneTree::find_descendant_with, (&scene, root, &flags), first),
    ensures
        old(body).animation_player is Some ==> player is None && final(body).animation_player
            == old(body).animation_player,
        scene.nodes@[root as int].children@.len() == 0 ==> player is None
            && final(body).animation_player == old(body).animation_player,
        old(body).animation_player is None && scene.nodes@[root as int].children@.len() > 0
            ==> player == first && final(body).animation_player == first,
{
}

/// The right arm is noted once its three bones are there, and not again; the head is hidden once the
/// model names its bone, and not again.
pub proof fn lemma_bones_are_noted_once(
    body: BodyVisual,
    scene: SceneTree,
    root: usize,
    metrics: CharacterMetrics,
    head: Option<u64>,
    found: Option<RightArm>,
    arm: Option<u64>,
    fore_arm: Option<u64>,
    hand: Option<u64>,
)
    requires
        call_ensures(BodyVisual::head_to_hide, (&body, &scene, root, &metrics), head),
        call_ensures(BodyVisual::right_arm_to_cache, (&body, &scene, root), found),
        call_ensures(SceneTree::find_descendant_by_bone_stem, (&scene, root, "RightArm"), arm),
        call_ensures(
            SceneTree::find_descendant_by_bone_stem,
            (&scene, root, "RightForeArm"),
            fore_arm,
        ),
        call_ensures(SceneTree::find_descendant_by_bone_stem, (&scene, root, "RightHand"), hand),
    ensures
        body.head_hidden || metrics.resolved is None ==> head is None,
        found is Some <==> body.right_arm_entity is None && arm is Some && fore_arm is Some && hand
            is Some,
        found matches Some(bones) ==> Some(bones.arm) == arm && Some(bones.fore_arm) == fore_arm
            && Some(bones.hand) == hand,
{
}

} // verus!
