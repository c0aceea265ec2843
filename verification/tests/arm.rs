use veldera::arm::{launch_speed, ArmState, RumbleStep, YeetTiming, FULLY_RAISED};
use veldera::blend::lerp;

const TIMING: YeetTiming =
    YeetTiming { point_ramp: 200_000_000, max_charge: 2_000_000_000, cooldown: 1_500_000_000 };

#[test]
fn holding_raises_the_arm_and_charges() {
    let mut arm = ArmState::new();
    let step = arm.tick(true, false, 50_000_000, TIMING, true);
    assert!(step.pointing);
    assert!(step.posed);
    assert_eq!(step.rumble, RumbleStep::Start);
    assert_eq!(arm.point_amount, FULLY_RAISED / 4);
    assert_eq!(arm.charge, 50_000_000);
    arm.rumble_started(7);
    let step = arm.tick(true, false, 500_000_000, TIMING, true);
    assert_eq!(step.rumble, RumbleStep::Drive(7));
    assert_eq!(arm.point_amount, FULLY_RAISED);
    assert_eq!(arm.charge, 550_000_000);
}

#[test]
fn charge_stops_at_its_limit() {
    let mut arm = ArmState::new();
    arm.tick(true, false, 5_000_000_000, TIMING, true);
    assert_eq!(arm.charge, TIMING.max_charge);
}

#[test]
fn letting_go_lowers_the_arm_and_stops_the_rumble() {
    let mut arm = ArmState::new();
    arm.tick(true, false, 200_000_000, TIMING, true);
    arm.rumble_started(3);
    let step = arm.tick(false, false, 50_000_000, TIMING, true);
    assert!(!step.pointing);
    assert_eq!(step.rumble, RumbleStep::Stop(3));
    assert_eq!(arm.rumble, None);
    assert_eq!(arm.point_amount, FULLY_RAISED / 4 * 3);
    assert_eq!(arm.charge, 0);
}

#[test]
fn without_sounds_the_rumble_is_left_alone() {
    let mut arm = ArmState::new();
    assert_eq!(arm.tick(true, false, 1_000, TIMING, false).rumble, RumbleStep::Keep);
    arm.rumble_started(9);
    assert_eq!(arm.tick(false, false, 1_000, TIMING, false).rumble, RumbleStep::Keep);
    assert_eq!(arm.rumble, Some(9));
}

#[test]
fn a_limp_body_does_not_point() {
    let mut arm = ArmState::new();
    let step = arm.tick(true, true, 1_000_000_000, TIMING, true);
    assert!(!step.pointing);
    assert!(!step.posed);
    assert_eq!(arm.charge, 0);
    assert_eq!(arm.release(true, TIMING), None);
    assert_eq!(arm.cooldown, 0);
}

#[test]
fn a_zero_ramp_lets_the_arm_jump() {
    let timing = YeetTiming { point_ramp: 0, ..TIMING };
    let mut arm = ArmState::new();
    arm.tick(true, false, 0, timing, true);
    assert_eq!(arm.point_amount, FULLY_RAISED);
    arm.tick(false, false, 0, timing, true);
    assert_eq!(arm.point_amount, 0);
}

#[test]
fn launches_keep_their_distance() {
    let mut arm = ArmState::new();
    arm.tick(true, false, 1_000_000_000, TIMING, true);
    assert_eq!(arm.release(false, TIMING), Some(1_000_000_000));
    assert_eq!(arm.charge, 0);
    assert_eq!(arm.cooldown, TIMING.cooldown);
    arm.tick(true, false, 1_000_000_000, TIMING, true);
    assert_eq!(arm.charge, 0);
    assert_eq!(arm.release(false, TIMING), None);
    arm.tick(true, false, 499_999_999, TIMING, true);
    assert_eq!(arm.release(false, TIMING), None);
    arm.tick(true, false, 1, TIMING, true);
    assert_eq!(arm.release(false, TIMING), Some(1));
}

#[test]
fn a_launch_counts_no_more_than_the_full_charge() {
    let mut arm = ArmState::new();
    arm.charge = 9_000_000_000;
    assert_eq!(arm.release(false, TIMING), Some(TIMING.max_charge));
}

#[test]
fn launch_speed_runs_from_end_to_end() {
    assert_eq!(launch_speed(5_000_000, 60_000_000, 0, TIMING), 5_000_000);
    assert_eq!(launch_speed(5_000_000, 60_000_000, 1_000_000_000, TIMING), 32_500_000);
    assert_eq!(launch_speed(5_000_000, 60_000_000, 2_000_000_000, TIMING), 60_000_000);
    assert_eq!(launch_speed(5_000_000, 60_000_000, u64::MAX, TIMING), 60_000_000);
}

#[test]
fn blends_can_fall() {
    assert_eq!(lerp(10, -10, 1, 4), 5);
    assert_eq!(lerp(i64::MIN, i64::MAX, 1, 1), i64::MAX);
    assert_eq!(lerp(i64::MAX, i64::MIN, 1, 1), i64::MIN);
}
