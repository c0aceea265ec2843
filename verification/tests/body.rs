use veldera::body::{
    consume_loaded_metrics, default_clip, despawn_body_on_fps_exit, eye_offset, locked_head_height,
    model_scene, plan_animation_graph, spawn_body_on_fps_enter, BodyTuning, BodyVisual,
    CharacterMetrics, EyeLerp, EyeLerpActive, EyeOffset, ResolvedMetrics, RightArm,
};
use veldera::bones::{LOWER_BODY_MASK, UPPER_BODY_MASK};
use veldera::movement::FpsPlayerConfig;
use veldera::skeleton::{SceneNode, SceneTree};

fn names(list: &[&str]) -> Vec<String> {
    list.iter().map(|n| n.to_string()).collect()
}

fn metrics(eye: i32) -> ResolvedMetrics {
    ResolvedMetrics {
        stand_height: 1_800_000,
        eye_height: eye,
        eye_forward_offset: 100_000,
        head_bone_y: 1_600_000,
        head_bone_name: "mixamorig:Head".to_string(),
    }
}

fn node(entity: u64, name: &str, children: &[usize]) -> SceneNode {
    SceneNode { entity, name: Some(name.to_string()), children: children.to_vec() }
}

/// A body with an arm, a finger, hair and a head.
fn scene() -> SceneTree {
    SceneTree {
        nodes: vec![
            node(100, "body", &[1, 5, 6]),
            node(101, "mixamorig:RightArm", &[2]),
            node(102, "mixamorig:RightForeArm", &[3]),
            node(103, "mixamorig:RightHand", &[4]),
            node(104, "mixamorig:RightHandIndex1", &[]),
            node(105, "Long_HAIR", &[]),
            node(106, "mixamorig:Head", &[]),
        ],
    }
}

#[test]
fn rifle_clips_move_the_legs_alone() {
    let plan = plan_animation_graph(
        &names(&["rifle-8-way/run forward", "locomotion/idle", "rifle"]),
        true,
    )
    .unwrap();
    assert_eq!(plan.masks, vec![UPPER_BODY_MASK, 0, 0]);
    assert_eq!(plan.idle_upper_body, Some((1, LOWER_BODY_MASK)));
    let plan = plan_animation_graph(&names(&["rifle-8-way/idle"]), true).unwrap();
    assert_eq!(plan.idle_upper_body, None);
    assert!(plan_animation_graph(&names(&["locomotion/idle"]), false).is_none());
}

#[test]
fn the_default_clip_prefers_idling() {
    assert_eq!(default_clip(&names(&["Idle", "locomotion/idle"])), Some(1));
    assert_eq!(default_clip(&names(&["run", "IDLE", "idle"])), Some(1));
    assert_eq!(default_clip(&names(&["run", "walk"])), Some(0));
    assert_eq!(default_clip(&names(&[])), None);
}

#[test]
fn the_default_scene_wins() {
    assert_eq!(model_scene(Some(2), Some(1)), Some(2));
    assert_eq!(model_scene(None, Some(1)), Some(1));
    assert_eq!(model_scene(None, None), None);
}

#[test]
fn only_the_first_model_places_the_eyes() {
    let mut known = CharacterMetrics { resolved: None };
    let mut tuning = BodyTuning::new();
    let mut player = FpsPlayerConfig {
        height: 0,
        radius_ratio: 900_000,
        crouch_height_ratio: 500_000,
        min_radius_ratio: 100_000,
        max_radius_ratio: 400_000,
    };
    consume_loaded_metrics(&mut known, &mut tuning, &mut player, None);
    assert!(known.resolved.is_none());
    assert!(!tuning.initialised_from_model);
    consume_loaded_metrics(&mut known, &mut tuning, &mut player, Some(metrics(1_700_000)));
    assert_eq!(player.height, 1_800_000);
    assert_eq!(player.radius_ratio, 400_000);
    assert_eq!(tuning.eye_height, 1_700_000);
    tuning.eye_height = 1_500_000;
    consume_loaded_metrics(&mut known, &mut tuning, &mut player, Some(metrics(1_650_000)));
    assert_eq!(tuning.eye_height, 1_500_000);
    assert_eq!(known.resolved.unwrap().eye_height, 1_650_000);
}

#[test]
fn bodies_come_with_first_person_and_go_with_it() {
    let known = CharacterMetrics { resolved: Some(metrics(1_700_000)) };
    let unknown = CharacterMetrics { resolved: None };
    let mut lerp = EyeLerp { active: None };
    assert_eq!(spawn_body_on_fps_enter(&mut lerp, false, false, Some(1), Some(2), &known, 8), None);
    assert_eq!(spawn_body_on_fps_enter(&mut lerp, true, true, Some(1), Some(2), &known, 8), None);
    assert_eq!(spawn_body_on_fps_enter(&mut lerp, true, false, None, Some(2), &known, 8), None);
    assert_eq!(spawn_body_on_fps_enter(&mut lerp, true, false, Some(1), None, &known, 8), None);
    assert_eq!(
        spawn_body_on_fps_enter(&mut lerp, true, false, Some(1), Some(2), &unknown, 8),
        Some((2, 1))
    );
    assert_eq!(lerp.active, None);
    assert_eq!(
        spawn_body_on_fps_enter(&mut lerp, true, false, Some(1), Some(2), &known, 8),
        Some((2, 1))
    );
    assert_eq!(lerp.active, Some(EyeLerpActive { start_up: 4, elapsed: 0 }));
    assert!(!despawn_body_on_fps_exit(&mut lerp, true));
    assert!(lerp.active.is_some());
    assert!(despawn_body_on_fps_exit(&mut lerp, false));
    assert!(lerp.active.is_none());
}

#[test]
fn eyes_glide_to_their_place() {
    let mut tuning = BodyTuning::new();
    let mut lerp =
        EyeLerp { active: Some(EyeLerpActive { start_up: 900_000, elapsed: 0 }) };
    assert_eq!(eye_offset(&tuning, &mut lerp, 1_800_000, 1_800_000, 1), None);
    tuning.initialised_from_model = true;
    tuning.eye_height = 1_700_000;
    tuning.eye_forward_offset = 100_000;
    assert_eq!(
        eye_offset(&tuning, &mut lerp, 1_800_000, 1_800_000, 0),
        Some(EyeOffset { up: 900_000, forward: 0 })
    );
    // Half of the time is half of the way.
    assert_eq!(
        eye_offset(&tuning, &mut lerp, 1_800_000, 1_800_000, 150_000_000),
        Some(EyeOffset { up: 850_000, forward: 50_000 })
    );
    assert_eq!(
        eye_offset(&tuning, &mut lerp, 1_800_000, 1_800_000, 150_000_000),
        Some(EyeOffset { up: 800_000, forward: 100_000 })
    );
    assert_eq!(lerp.active, None);
    // A crouched player has its eyes lower and less far ahead.
    assert_eq!(
        eye_offset(&tuning, &mut lerp, 900_000, 1_800_000, 0),
        Some(EyeOffset { up: 400_000, forward: 50_000 })
    );
}

#[test]
fn without_a_duration_the_eyes_are_there_at_once() {
    let tuning = BodyTuning {
        eye_height: 10,
        eye_forward_offset: -4,
        eye_lerp_duration: 0,
        initialised_from_model: true,
    };
    let mut lerp = EyeLerp { active: Some(EyeLerpActive { start_up: 7, elapsed: 0 }) };
    assert_eq!(eye_offset(&tuning, &mut lerp, 10, 10, 120), Some(EyeOffset { up: 5, forward: -4 }));
    assert_eq!(lerp.active, None);
}

#[test]
fn a_crouching_head_is_locked_lower() {
    assert_eq!(locked_head_height(1_600_000, 900_000, 1_800_000), 800_000);
    assert_eq!(locked_head_height(1_600_000, 2_000_000, 1_800_000), 1_600_000);
    assert_eq!(locked_head_height(-1_600_000, 900_000, 1_800_000), -800_000);
    assert_eq!(locked_head_height(1_600_000, 5, 0), 1_600_000);
}

#[test]
fn a_body_is_set_up_once() {
    let tree = scene();
    let mut body = BodyVisual::new(1);
    let known = CharacterMetrics { resolved: Some(metrics(1)) };
    assert_eq!(body.head_to_hide(&tree, 0, &known), Some(106));
    body.head_was_hidden(106);
    assert_eq!(body.head_to_hide(&tree, 0, &known), None);
    assert_eq!(body.head_bone_entity, Some(106));

    let nothing = vec![false; 7];
    let all = vec![true; 7];
    assert!(body.hide_head_attached_meshes(&tree, 0, &nothing).is_empty());
    assert_eq!(body.hide_head_attached_meshes(&tree, 0, &all), vec![105]);
    assert!(body.hide_head_attached_meshes(&tree, 0, &all).is_empty());

    let meshes = vec![false, false, false, false, false, true, true];
    assert!(body.disable_body_frustum_culling(&tree, 0, &nothing).is_empty());
    assert_eq!(body.disable_body_frustum_culling(&tree, 0, &meshes), vec![106, 105]);
    assert!(body.disable_body_frustum_culling(&tree, 0, &meshes).is_empty());

    assert_eq!(body.populate_bone_mask_groups(&tree, 0, &meshes), vec![(106, UPPER_BODY_MASK)]);
    assert!(body.populate_bone_mask_groups(&tree, 0, &all).is_empty());

    assert_eq!(body.install_animation_player(&tree, 0, &nothing), None);
    assert_eq!(body.install_animation_player(&tree, 0, &meshes), Some(106));
    assert_eq!(body.install_animation_player(&tree, 0, &meshes), None);
    assert_eq!(body.animation_player, Some(106));
}

#[test]
fn the_right_arm_is_noted_once() {
    let tree = scene();
    let mut body = BodyVisual::new(1);
    let arm = RightArm { arm: 101, fore_arm: 102, hand: 103 };
    assert_eq!(body.right_arm_to_cache(&tree, 0), Some(arm));
    assert_eq!(body.right_arm_to_cache(&tree, 5), None);
    body.cache_right_arm(&tree, arm, 3);
    assert_eq!(body.right_arm_entity, Some(101));
    assert_eq!(body.right_index_bones, vec![104]);
    assert_eq!(body.right_arm_to_cache(&tree, 0), None);
}
