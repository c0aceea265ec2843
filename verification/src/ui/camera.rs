//! The panel for the camera.
//!
//! Lengths are in micrometres and times in nanoseconds.

use vstd::prelude::*;
use vstd::string::*;
use crate::blend::{clamp, clamped};
use crate::body::{BodyTuning, ResolvedMetrics};
use crate::camera_mode::CameraMode;
use crate::decimal::{fixed, push_fixed};
use crate::movement::FpsPlayerConfig;

verus! {

/// The name of a camera mode.
pub fn mode_label(mode: CameraMode) -> (caption: &'static str)
    ensures
        caption@ == match mode {
            CameraMode::Flycam => "Flycam"@,
            CameraMode::FpsController => "FPS controller"@,
            CameraMode::FollowEntity => "Following entity"@,
        },
{
    match mode {
        CameraMode::Flycam => "Flycam",
        CameraMode::FpsController => "FPS controller",
        CameraMode::FollowEntity => "Following entity",
    }
}

/// The parts of the panel that depend on the mode.
#[derive(Clone, Copy, Debug, PartialEq, Eq, Structural)]
pub struct CameraSections {
    /// The speed of the free flight.
    pub speed: bool,
    /// The size of the player and the place of its eyes.
    pub player: bool,
    /// The offsets of the camera that follows.
    pub follow: bool,
}

/// The parts of the panel that a mode shows: one for each mode.
pub fn camera_sections(mode: CameraMode) -> (sections: CameraSections)
    ensures
        sections.speed == (mode is Flycam),
        sections.player == (mode is FpsController),
        sections.follow == (mode is FollowEntity),
{
    match mode {
        CameraMode::Flycam => CameraSections { speed: true, player: false, follow: false },
        CameraMode::FpsController => CameraSections { speed: false, player: true, follow: false },
        CameraMode::FollowEntity => CameraSections { speed: false, player: false, follow: true },
    }
}

/// How the camera flies to a destination.
#[derive(Clone, Copy, Debug, PartialEq, Eq, Structural)]
pub enum TeleportAnimationMode {
    /// Looking where it looked.
    Classic,
    /// Looking at the horizon ahead.
    HorizonChasing,
}

impl TeleportAnimationMode {
    /// The name of the style.
    pub fn label(self) -> (caption: &'static str)
        ensures
            caption@ == match self {
                TeleportAnimationMode::Classic => "Classic"@,
                TeleportAnimationMode::HorizonChasing => "Horizon"@,
            },
    {
        match self {
            TeleportAnimationMode::Classic => "Classic",
            TeleportAnimationMode::HorizonChasing => "Horizon",
        }
    }
}

/// What the panel says of the camera that follows an entity.
pub fn follow_notice(has_target: bool, has_config: bool) -> (notice: Option<&'static str>)
    ensures
        match notice {
            Some(n) => !(has_target && has_config) && n@ == if has_target {
                "Target has no FollowCameraConfig"@
            } else {
                "No follow target"@
            },
            None => has_target && has_config,
        },
{
    if !has_target {
        Some("No follow target")
    } else if !has_config {
        Some("Target has no FollowCameraConfig")
    } else {
        None
    }
}

/// Writes which mode the camera is in.
pub fn mode_line(mode: CameraMode) -> (line: String)
    ensures
        line@ == "Mode: "@ + match mode {
            CameraMode::Flycam => "Flycam"@,
            CameraMode::FpsController => "FPS controller"@,
            CameraMode::FollowEntity => "Following entity"@,
        } + " (N to toggle)"@,
{
    let mut line = "Mode: ".to_owned();
    line.append(mode_label(mode));
    line.append(" (N to toggle)");
    line
}

/// How far the eyes can be tuned.
#[derive(Clone, Copy, Debug)]
pub struct EyeLimits {
    pub height: (i32, i32),
    pub forward: (i32, i32),
    /// The longest way of the eyes to their place.
    pub lerp_duration: u64,
}

impl EyeLimits {
    /// The limits are in order.
    pub open spec fn wf(&self) -> bool {
        self.height.0 <= self.height.1 && self.forward.0 <= self.forward.1
    }
}

/// A change on the panel for the eyes.
#[derive(Clone, Copy, Debug, PartialEq, Eq, Structural)]
pub enum EyeEdit {
    Height(i32),
    Forward(i32),
    LerpDuration(u64),
    ResetHeight,
    ResetForward,
}

/// The tuning after a change, with a model.
pub open spec fn tuned(
    tuning: BodyTuning,
    edit: EyeEdit,
    limits: EyeLimits,
    model: ResolvedMetrics,
) -> BodyTuning {
    match edit {
        EyeEdit::Height(v) => BodyTuning {
            eye_height: clamped(v as int, limits.height.0 as int, limits.height.1 as int) as i32,
            ..tuning
        },
        EyeEdit::Forward(v) => BodyTuning {
            eye_forward_offset: clamped(
                v as int,
                limits.forward.0 as int,
                limits.forward.1 as int,
            ) as i32,
            ..tuning
        },
        EyeEdit::LerpDuration(v) => BodyTuning {
            eye_lerp_duration: if v > limits.lerp_duration {
                limits.lerp_duration
            } else {
                v
            },
            ..tuning
        },
        EyeEdit::ResetHeight => BodyTuning { eye_height: model.eye_height, ..tuning },
        EyeEdit::ResetForward => BodyTuning {
            eye_forward_offset: model.eye_forward_offset,
            ..tuning
        },
    }
}

/// Changes where the eyes are: a slider holds its value within the limits, and a reset takes the
/// model's own. Without a model nothing can be changed.
pub fn tune_eyes(
    tuning: &mut BodyTuning,
    edit: EyeEdit,
    limits: EyeLimits,
    model: &Option<ResolvedMetrics>,
)
    requires
        limits.wf(),
    ensures
        *final(tuning) == match *model {
            Some(m) => tuned(*old(tuning), edit, limits, m),
            None => *old(tuning),
        },
{
    match model {
        Some(m) => {
            match edit {
                EyeEdit::Height(v) => {
                    tuning.eye_height = clamp(
                        v as i64,
                        limits.height.0 as i64,
                        limits.height.1 as i64,
                    ) as i32;
                },
                EyeEdit::Forward(v) => {
                    tuning.eye_forward_offset = clamp(
                        v as i64,
                        limits.forward.0 as i64,
                        limits.forward.1 as i64,
                    ) as i32;
                },
                EyeEdit::LerpDuration(v) => {
                    tuning.eye_lerp_duration = if v > limits.lerp_duration {
                        limits.lerp_duration
                    } else {
                        v
                    };
                },
                EyeEdit::ResetHeight => {
                    tuning.eye_height = m.eye_height;
                },
                EyeEdit::ResetForward => {
                    tuning.eye_forward_offset = m.eye_forward_offset;
                },
            }
        },
        None => {},
    }
}

/// A length in metres.
pub open spec fn in_metres(micrometres: int, places: nat) -> Seq<char> {
    fixed(micrometres * 1000, places)
}

/// Writes the measures of the model, if there is one.
pub fn model_label(model: &Option<ResolvedMetrics>) -> (line: String)
    ensures
        line@ == match *model {
            Some(m) => "Model: stand="@ + in_metres(m.stand_height as int, 3) + " m, eye="@
                + in_metres(m.eye_height as int, 3) + " m, fwd="@ + in_metres(
                m.eye_forward_offset as int,
                3,
            ) + " m"@,
            None => "(character model not loaded yet)"@,
        },
{
    match model {
        Some(m) => {
            let mut line = "Model: stand=".to_owned();
            push_fixed(&mut line, m.stand_height as i64 * 1000, 3);
            line.append(" m, eye=");
            push_fixed(&mut line, m.eye_height as i64 * 1000, 3);
            line.append(" m, fwd=");
            push_fixed(&mut line, m.eye_forward_offset as i64 * 1000, 3);
            line.append(" m");
            line
        },
        None => "(character model not loaded yet)".to_owned(),
    }
}

/// The shortest player.
pub const SHORTEST: u32 = 500_000;

/// The tallest player.
pub const TALLEST: u32 = 3_000_000;

/// Sets the height of the player, within the ends of its slider.
pub fn choose_height(config: &mut FpsPlayerConfig, height: u32)
    ensures
        *final(config) == (FpsPlayerConfig {
            height: clamped(height as int, SHORTEST as int, TALLEST as int) as u32,
            ..*old(config)
        }),
{
    config.height = clamp(height as i64, SHORTEST as i64, TALLEST as i64) as u32;
}

/// Sets how wide the player is for its height, within the limits of the configuration.
pub fn choose_radius_ratio(config: &mut FpsPlayerConfig, ratio: u32)
    requires
        old(config).wf(),
    ensures
        *final(config) == (FpsPlayerConfig {
            radius_ratio: clamped(
                ratio as int,
                old(config).min_radius_ratio as int,
                old(config).max_radius_ratio as int,
            ) as u32,
            ..*old(config)
        }),
{
    config.radius_ratio = clamp(
        ratio as i64,
        config.min_radius_ratio as i64,
        config.max_radius_ratio as i64,
    ) as u32;
}

/// Writes the size of the player.
pub fn size_label(config: &FpsPlayerConfig) -> (line: String)
    requires
        config.wf(),
        config.radius_spec() <= u32::MAX,
    ensures
        line@ == "Capsule radius: "@ + in_metres(config.radius_spec(), 2) + " m, eye height: "@
            + in_metres(config.height as int, 2) + " m"@,
{
    let mut line = "Capsule radius: ".to_owned();
    push_fixed(&mut line, config.radius() as i64 * 1000, 2);
    line.append(" m, eye height: ");
    push_fixed(&mut line, config.height as i64 * 1000, 2);
    line.append(" m");
    line
}

/// Each slider for the eyes holds its value within its limits and leaves the others alone, and each
/// reset takes the value of the model. Without a model nothing changes.
pub proof fn lemma_eyes_are_tuned_within_limits(
    tuning: &mut BodyTuning,
    edit: EyeEdit,
    limits: EyeLimits,
    model: Option<ResolvedMetrics>,
)
    requires
        limits.wf(),
        call_ensures(tune_eyes, (tuning, edit, limits, &model), ()),
    ensures
        ({
            let before = *old(tuning);
            let after = *final(tuning);
            let height = edit is Height || edit is ResetHeight;
            let forward = edit is Forward || edit is ResetForward;
            &&& model is None ==> after == before
            &&& !height ==> after.eye_height == before.eye_height
            &&& !forward ==> after.eye_forward_offset == before.eye_forward_offset
            &&& !(edit is LerpDuration) ==> after.eye_lerp_duration == before.eye_lerp_duration
            &&& after.initialised_from_model == before.initialised_from_model
            &&& model matches Some(m) ==> {
                &&& edit is ResetHeight ==> after.eye_height == m.eye_height
                &&& edit is ResetForward ==> after.eye_forward_offset == m.eye_forward_offset
                &&& edit matches EyeEdit::Height(v) ==> {
                    &&& limits.height.0 <= after.eye_height <= limits.height.1
                    &&& limits.height.0 <= v <= limits.height.1 ==> after.eye_height == v
                    &&& v < limits.height.0 ==> after.eye_height == limits.height.0
                    &&& v > limits.height.1 ==> after.eye_height == limits.height.1
                }
                &&& edit matches EyeEdit::Forward(v) ==> {
                    &&& limits.forward.0 <= after.eye_forward_offset <= limits.forward.1
                    &&& limits.forward.0 <= v <= limits.forward.1 ==> after.eye_forward_offset == v
                    &&& v < limits.forward.0 ==> after.eye_forward_offset == limits.forward.0
                    &&& v > limits.forward.1 ==> after.eye_forward_offset == limits.forward.1
                }
                &&& edit matches EyeEdit::LerpDuration(v) ==> {
                    &&& v <= limits.lerp_duration ==> after.eye_lerp_duration == v
                    &&& v > limits.lerp_duration ==> after.eye_lerp_duration == limits.lerp_duration
                }
            }
        }),
{
}

/// A player is between half a metre and three metres tall, and as wide for its height as its
/// configuration allows; a size within is taken as it is.
pub proof fn lemma_players_keep_a_fair_size(
    tall: &mut FpsPlayerConfig,
    height: u32,
    wide: &mut FpsPlayerConfig,
    ratio: u32,
)
    requires
        call_ensures(choose_height, (tall, height), ()),
        old(wide).wf(),
        call_ensures(choose_radius_ratio, (wide, ratio), ()),
    ensures
        500_000 <= final(tall).height <= 3_000_000,
        500_000 <= height <= 3_000_000 ==> final(tall).height == height,
        height < 500_000 ==> final(tall).height == 500_000,
        height > 3_000_000 ==> final(tall).height == 3_000_000,
        final(tall).radius_ratio == old(tall).radius_ratio,
        old(wide).min_radius_ratio <= final(wide).radius_ratio <= old(wide).max_radius_ratio,
        old(wide).min_radius_ratio <= ratio <= old(wide).max_radius_ratio
            ==> final(wide).radius_ratio == ratio,
        ratio < old(wide).min_radius_ratio ==> final(wide).radius_ratio
            == old(wide).min_radius_ratio,
        ratio > old(wide).max_radius_ratio ==> final(wide).radius_ratio
            == old(wide).max_radius_ratio,
        final(wide).height == old(wide).height,
{
}

/// Exactly one part of the panel is there, that of the mode.
pub proof fn lemma_one_section_for_each_mode(mode: CameraMode, sections: CameraSections)
    requires
        call_ensures(camera_sections, (mode,), sections),
    ensures
        sections.speed <==> mode == CameraMode::Flycam,
        sections.player <==> mode == CameraMode::FpsController,
        sections.follow <==> mode == CameraMode::FollowEntity,
{
}

} // verus!
