use veldera::locomotion::{
    apply_locomotion_weights, clip_named, compute_locomotion_weights, direction_8way_blend,
    locomotion_gait_blend, set_node_weight, square_root, Clip, Direction, LocomotionConfig, Motion,
    NodeStep, Side, FULL,
};

const CONFIG: LocomotionConfig = LocomotionConfig {
    deadzone: 300_000,
    walk_ref: 3_000_000,
    run_ref: 8_000_000,
    airborne_vertical: 2_000_000,
};

const STILL: Motion = Motion {
    forward: 0,
    side: 0,
    vertical: 0,
    heading: 0,
    height: 1_800_000,
    upright_height: 1_800_000,
    crouch_height: 1_000_000,
};

fn total(motion: &Motion) -> u64 {
    let targets = compute_locomotion_weights(&CONFIG, motion);
    Clip::all().iter().map(|c| targets.weight(*c)).sum()
}

#[test]
fn gaits_add_up() {
    for speed in [0, 300_000, 300_001, 1_650_000, 3_000_000, 5_500_000, 8_000_000, 90_000_000] {
        let g = locomotion_gait_blend(&CONFIG, speed);
        assert_eq!(g.idle + g.walk + g.run, FULL);
    }
    let half = locomotion_gait_blend(&CONFIG, 1_650_000);
    assert_eq!((half.idle, half.walk, half.run), (FULL / 2, FULL / 2, 0));
    let quick = locomotion_gait_blend(&CONFIG, 5_500_000);
    assert_eq!((quick.idle, quick.walk, quick.run), (0, FULL / 2, FULL / 2));
}

#[test]
fn directions_blend_with_their_neighbour() {
    let b = direction_8way_blend(2 * FULL + FULL / 4);
    assert_eq!((b.lower, b.upper), (2, 3));
    assert_eq!((b.lower_weight, b.upper_weight), (FULL / 4 * 3, FULL / 4));
    let b = direction_8way_blend(7 * FULL + FULL / 2);
    assert_eq!((b.lower, b.upper), (7, 0));
    let b = direction_8way_blend(8 * FULL);
    assert_eq!((b.lower, b.lower_weight), (0, FULL));
}

#[test]
fn square_roots_round_down() {
    assert_eq!(square_root(0), 0);
    assert_eq!(square_root(15), 3);
    assert_eq!(square_root(16), 4);
    assert_eq!(square_root(u128::MAX), u64::MAX);
}

#[test]
fn a_body_at_rest_idles() {
    let targets = compute_locomotion_weights(&CONFIG, &STILL);
    assert_eq!(targets.weight(Clip::Idle), FULL);
    assert_eq!(targets.idle_upper_body(), 0);
    assert_eq!(total(&STILL), FULL);
}

#[test]
fn in_the_air_only_the_jump_plays() {
    let motion = Motion { vertical: -2_000_001, forward: 5_000_000, height: 1_000_000, ..STILL };
    let targets = compute_locomotion_weights(&CONFIG, &motion);
    assert_eq!(targets.weight(Clip::Jump), FULL);
    assert_eq!(targets.idle_upper_body(), 0);
    assert_eq!(total(&motion), FULL);
    let grounded = Motion { vertical: 2_000_000, ..STILL };
    assert_eq!(compute_locomotion_weights(&CONFIG, &grounded).weight(Clip::Jump), 0);
}

#[test]
fn walking_ahead_uses_the_locomotion_pack() {
    let motion = Motion { forward: 3_000_000, ..STILL };
    let targets = compute_locomotion_weights(&CONFIG, &motion);
    assert_eq!(targets.weight(Clip::Walking), FULL);
    assert_eq!(targets.idle_upper_body(), 0);
    assert_eq!(total(&motion), FULL);
}

#[test]
fn strafing_goes_to_its_side() {
    let left = Motion { side: -8_000_000, ..STILL };
    let targets = compute_locomotion_weights(&CONFIG, &left);
    assert_eq!(targets.weight(Clip::Strafe(Side::Left)), FULL);
    assert_eq!(targets.weight(Clip::Strafe(Side::Right)), 0);
    let right = Motion { side: 3_000_000, ..STILL };
    let targets = compute_locomotion_weights(&CONFIG, &right);
    assert_eq!(targets.weight(Clip::StrafeWalking(Side::Right)), FULL);
}

#[test]
fn backing_up_keeps_the_arms_down() {
    let straight = Motion { forward: -3_000_000, ..STILL };
    let targets = compute_locomotion_weights(&CONFIG, &straight);
    assert_eq!(targets.weight(Clip::WalkBackward), FULL);
    assert_eq!(targets.idle_upper_body(), FULL);
    // Three, four, five: the speed is 10 metres per second.
    let slanted = Motion { forward: -8_000_000, side: 6_000_000, ..STILL };
    let targets = compute_locomotion_weights(&CONFIG, &slanted);
    assert_eq!(targets.weight(Clip::RunBackward), 320_000_000);
    assert_eq!(targets.weight(Clip::RunBackwardTo(Side::Right)), 480_000_000);
    assert_eq!(targets.weight(Clip::Strafe(Side::Right)), 600_000_000);
    assert_eq!(targets.idle_upper_body(), 800_000_000);
}

#[test]
fn crouching_uses_the_rifle_pack() {
    let crouched = Motion { height: 1_000_000, ..STILL };
    let targets = compute_locomotion_weights(&CONFIG, &crouched);
    assert_eq!(targets.weight(Clip::IdleCrouching), FULL);
    assert_eq!(targets.weight(Clip::Idle), 0);
    assert_eq!(targets.idle_upper_body(), FULL);
    let walking = Motion { height: 1_400_000, forward: 3_000_000, heading: FULL / 4, ..STILL };
    let targets = compute_locomotion_weights(&CONFIG, &walking);
    assert_eq!(targets.weight(Clip::Walking), FULL / 2);
    assert_eq!(targets.weight(Clip::WalkCrouching(Direction::Forward)), FULL / 8 * 3);
    assert_eq!(targets.weight(Clip::WalkCrouching(Direction::ForwardLeft)), FULL / 8);
    assert_eq!(targets.weight(Clip::WalkCrouching(Direction::Left)), 0);
    assert_eq!(targets.idle_upper_body(), FULL / 2);
}

#[test]
fn clips_are_found_by_their_names() {
    for clip in Clip::all() {
        assert_eq!(clip_named(clip.name()), Some(clip));
    }
    assert_eq!(Clip::all().len(), 23);
    assert_eq!(Clip::StrafeWalking(Side::Left).name(), "locomotion/left strafe walking");
    assert_eq!(
        Clip::WalkCrouching(Direction::BackwardRight).name(),
        "rifle-8-way/walk crouching backward right"
    );
    assert_eq!(clip_named("locomotion/swimming"), None);
}

#[test]
fn nodes_start_once() {
    assert_eq!(set_node_weight(true, 0), NodeStep::SetWeight(0));
    assert_eq!(set_node_weight(false, 0), NodeStep::Leave);
    assert_eq!(set_node_weight(false, 5), NodeStep::Play(5));
    let targets = compute_locomotion_weights(&CONFIG, &STILL);
    let nodes = vec![
        ("locomotion/idle".to_string(), false),
        ("locomotion/walking".to_string(), true),
        ("dance".to_string(), false),
    ];
    assert_eq!(
        apply_locomotion_weights(&targets, &nodes),
        vec![NodeStep::Play(FULL), NodeStep::SetWeight(0), NodeStep::Leave]
    );
}
