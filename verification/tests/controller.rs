use veldera::controller::{
    controller_runs, plan_step, ControlInput, Drive, Footing, GroundFriction, HeightChange,
    RagdollState, RagdollTriggers, TopSpeed,
};
use veldera::movement::{
    acceleration, after_friction, capped, next_height, FpsPlayerConfig, SpeedLimits,
};

const TRIGGERS: RagdollTriggers = RagdollTriggers {
    enable_ragdoll: true,
    airborne_threshold: 1_000_000_000,
    ground_recovery: 500_000_000,
};

const STEP: u64 = 100_000_000;

#[test]
fn a_short_fall_leaves_the_player_in_control() {
    let mut footing = Footing::new();
    for _ in 0..9 {
        footing.slide(false, STEP, TRIGGERS);
    }
    assert_eq!(footing.ragdoll_state, RagdollState::Active);
    assert_eq!(footing.airborne_time, 900_000_000);
    footing.slide(true, STEP, TRIGGERS);
    assert_eq!(footing.airborne_time, 0);
    assert!(footing.is_grounded());
}

#[test]
fn a_long_fall_makes_the_player_limp_until_it_has_rested() {
    let mut footing = Footing::new();
    for _ in 0..10 {
        footing.slide(false, STEP, TRIGGERS);
    }
    assert_eq!(footing.ragdoll_state, RagdollState::Ragdolling);
    for _ in 0..4 {
        footing.slide(true, STEP, TRIGGERS);
    }
    assert_eq!(footing.ragdoll_state, RagdollState::Ragdolling);
    footing.slide(false, STEP, TRIGGERS);
    assert_eq!(footing.grounded_time, 0);
    for _ in 0..5 {
        footing.slide(true, STEP, TRIGGERS);
    }
    assert_eq!(footing.ragdoll_state, RagdollState::Active);
    assert_eq!(footing.grounded_time, 0);
}

#[test]
fn without_ragdolls_falls_change_nothing() {
    let off = RagdollTriggers { enable_ragdoll: false, ..TRIGGERS };
    let mut footing = Footing::new();
    for _ in 0..100 {
        footing.slide(false, STEP, off);
    }
    assert_eq!(footing.ragdoll_state, RagdollState::Active);
}

#[test]
fn ground_ticks_saturate_and_a_launch_clears_them() {
    let mut footing = Footing::new();
    for _ in 0..300 {
        footing.slide(true, 1, TRIGGERS);
    }
    assert_eq!(footing.ground_tick, 255);
    footing.lift_off();
    assert!(!footing.is_grounded());
}

#[test]
fn presses_wait_for_a_step() {
    let mut input = ControlInput::new();
    input.gather(true, ControlInput { sprint: false, jump: true, crouch: false });
    input.clear_after(false);
    input.gather(true, ControlInput::new());
    assert!(input.jump);
    input.clear_after(true);
    assert!(!input.jump);
    input.gather(false, ControlInput { sprint: true, jump: true, crouch: true });
    assert_eq!(input, ControlInput::new());
}

#[test]
fn crouching_wins_over_sprinting() {
    let mut footing = Footing::new();
    footing.slide(true, STEP, TRIGGERS);
    let plan = plan_step(&footing, ControlInput { sprint: true, jump: true, crouch: true });
    assert_eq!(plan.top_speed, TopSpeed::Crouched);
    assert_eq!(plan.friction, Some(GroundFriction::Walking));
    assert_eq!(plan.drive, Drive::Ground { jump: true });
    assert_eq!(plan.height, HeightChange::Shrinks);
}

#[test]
fn in_the_air_there_is_no_friction_and_no_jump() {
    let footing = Footing::new();
    let plan = plan_step(&footing, ControlInput { sprint: true, jump: true, crouch: false });
    assert_eq!(plan.top_speed, TopSpeed::Run);
    assert_eq!(plan.friction, None);
    assert_eq!(plan.drive, Drive::Air);
    assert_eq!(plan.height, HeightChange::Grows);
}

#[test]
fn a_limp_player_is_only_slowed() {
    let mut footing = Footing::new();
    footing.ragdoll_state = RagdollState::Ragdolling;
    footing.ground_tick = 1;
    let plan = plan_step(&footing, ControlInput { sprint: false, jump: true, crouch: true });
    assert_eq!(plan.friction, Some(GroundFriction::Landing));
    assert_eq!(plan.drive, Drive::Nothing);
    assert_eq!(plan.height, HeightChange::Stays);
}

#[test]
fn a_teleport_stops_all_but_the_origin() {
    let runs = controller_runs(true, true);
    assert!(!runs.play && !runs.render && runs.sync_origin);
    let runs = controller_runs(true, false);
    assert!(runs.play && runs.render && runs.sync_origin);
    let runs = controller_runs(false, false);
    assert!(!runs.play && !runs.render && !runs.sync_origin);
}

#[test]
fn speeds_stay_within_their_limits() {
    let limits = SpeedLimits { walk_speed: 4, run_speed: 9, crouched_speed: 2 };
    assert_eq!(limits.wish_speed(30, TopSpeed::Run), 9);
    assert_eq!(limits.wish_speed(30, TopSpeed::Walk), 4);
    assert_eq!(limits.wish_speed(1, TopSpeed::Crouched), 1);
    assert_eq!(capped(7, 3), 3);
    assert_eq!(capped(2, 3), 2);
}

#[test]
fn friction_takes_its_share() {
    // A friction of 10 per second over a tenth of a second takes everything.
    assert_eq!(after_friction(8_000_000, 10_000_000, 1_000_000, 100_000, 100_000_000), 0);
    // Over a hundredth of a second it takes a tenth.
    assert_eq!(after_friction(8_000_000, 10_000_000, 1_000_000, 100_000, 10_000_000), 7_200_000);
    // A slow player loses at least the share of the stop speed.
    assert_eq!(after_friction(500_000, 10_000_000, 1_000_000, 100_000, 10_000_000), 400_000);
    // At the cutoff the player stops.
    assert_eq!(after_friction(100_000, 10_000_000, 1_000_000, 100_000, 1), 0);
}

#[test]
fn acceleration_stops_at_the_wish() {
    assert_eq!(acceleration(10_000_000, 0, 10_000_000, 10_000_000), 1_000_000);
    assert_eq!(acceleration(10_000_000, 9_500_000, 10_000_000, 10_000_000), 500_000);
    assert_eq!(acceleration(10_000_000, 10_000_000, 10_000_000, 10_000_000), 0);
    assert_eq!(acceleration(10_000_000, 12_000_000, 10_000_000, 10_000_000), 0);
    assert_eq!(acceleration(10_000_000, -2_000_000, 10_000_000, 10_000_000), 1_000_000);
}

#[test]
fn the_capsule_keeps_its_shape() {
    let mut config = FpsPlayerConfig {
        height: 1_800_000,
        radius_ratio: 450_000,
        crouch_height_ratio: 600_000,
        min_radius_ratio: 100_000,
        max_radius_ratio: 400_000,
    };
    assert_eq!(config.radius(), 720_000);
    assert_eq!(config.crouch_height(), 1_080_000);
    assert_eq!(config.segment(1_800_000), 360_000);
    assert_eq!(config.segment(1_080_000), 0);
    config.sync_geometry(500_000, 50_000, 200_000);
    assert_eq!(config.radius(), 360_000);
    assert_eq!(config.crouch_height(), 900_000);
    assert_eq!(config.height, 1_800_000);
}

#[test]
fn heights_move_between_crouched_and_upright() {
    let (low, high) = (1_080_000, 1_800_000);
    let step = |height, change| next_height(height, change, 2_000_000, 4_000_000, 100_000_000, low, high);
    assert_eq!(step(1_800_000, HeightChange::Shrinks), 1_600_000);
    assert_eq!(step(1_100_000, HeightChange::Shrinks), 1_080_000);
    assert_eq!(step(1_100_000, HeightChange::Grows), 1_500_000);
    assert_eq!(step(1_700_000, HeightChange::Grows), 1_800_000);
    assert_eq!(step(2_500_000, HeightChange::Stays), 2_500_000);
    assert_eq!(step(2_500_000, HeightChange::Shrinks), 1_800_000);
}
