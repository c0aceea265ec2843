use veldera::camera_mode::CameraMode;
use veldera::teleport::{
    compute_apex_altitude, compute_duration, AnimationState, ApexBands, ArcTrajectory, Arrival,
    DurationBands, Leg, SettleConfig, TeleportAnimation, TeleportState, WHOLE_FLIGHT,
};

const CONFIG: SettleConfig =
    SettleConfig { physics_settle_delay: 500, physics_wait_timeout: 5_000, descent_start_ppm: 600_000 };

#[test]
fn a_request_waits_for_its_elevation() {
    let mut state: TeleportState<i32> = TeleportState::new();
    assert!(!state.is_pending());
    assert_eq!(state.poll_elevation(0, Ok(5)), None);
    let ticket = state.request(1, 2);
    assert!(state.is_pending());
    assert!(state.take_departure_woosh());
    assert!(!state.take_departure_woosh());
    assert_eq!(state.poll_elevation(ticket, Ok(5)), Some((1, 2, 5)));
    assert!(!state.is_pending());
    assert_eq!(state.poll_elevation(ticket, Ok(5)), None);
    let ticket = state.request(3, 4);
    assert_eq!(state.poll_elevation(ticket, Err("down".to_string())), None);
    assert_eq!(state.error, Some("down".to_string()));
    state.request(3, 4);
    assert_eq!(state.error, None);
}

#[test]
fn a_replaced_request_does_not_count() {
    let mut state: TeleportState<i32> = TeleportState::new();
    let first = state.request(10, 20);
    let second = state.request(30, 40);
    assert_eq!(state.poll_elevation(first, Ok(5)), None);
    assert!(state.is_pending());
    assert_eq!(state.poll_elevation(first, Err("late".to_string())), None);
    assert_eq!(state.error, None);
    assert_eq!(state.poll_elevation(second, Ok(7)), Some((30, 40, 7)));
    assert!(!state.is_pending());
}

#[test]
fn tickets_start_over() {
    let mut state: TeleportState<i32> = TeleportState::new();
    state.next_ticket = u64::MAX;
    let first = state.request(1, 2);
    let second = state.request(3, 4);
    assert_eq!((first, second), (u64::MAX, 0));
    assert_eq!(state.poll_elevation(first, Ok(5)), None);
    assert_eq!(state.poll_elevation(second, Ok(6)), Some((3, 4, 6)));
}

#[test]
fn a_descent_past_the_end_has_no_sound() {
    let mut animation = flight(CameraMode::Flycam);
    let config = SettleConfig { descent_start_ppm: 1_000_001, ..CONFIG };
    let step = animation.tick(2_000, config, None).unwrap();
    assert!(step.stop_wind && !step.arrival_woosh);
    let mut animation = flight(CameraMode::Flycam);
    let config = SettleConfig { descent_start_ppm: 1_000_000, ..CONFIG };
    assert!(animation.tick(2_000, config, None).unwrap().arrival_woosh);
}

fn flight(mode: CameraMode) -> TeleportAnimation<&'static str, u8> {
    let mut animation = TeleportAnimation::new();
    animation.begin_flight("plan", 100, 1_000, mode);
    animation
}

#[test]
fn a_short_way_is_no_flight() {
    let mut animation: TeleportAnimation<&str, u8> = TeleportAnimation::new();
    let start = animation.begin_flight("plan", 99, 1_000, CameraMode::FpsController);
    assert!(start.stop_wind && !start.start_wind && !start.despawn_player);
    assert!(!animation.is_active());
    let start = animation.begin_flight("plan", 100, 1_000, CameraMode::FpsController);
    assert!(start.stop_wind && start.start_wind && start.despawn_player);
    assert!(animation.is_active());
}

#[test]
fn the_arrival_sounds_once() {
    let mut animation = flight(CameraMode::Flycam);
    let step = animation.tick(599, CONFIG, None).unwrap();
    assert!(step.fly && !step.arrival_woosh && !step.stop_wind);
    assert_eq!(animation.progress(), Some((599, 1_000)));
    assert!(animation.tick(1, CONFIG, None).unwrap().arrival_woosh);
    assert!(!animation.tick(1, CONFIG, None).unwrap().arrival_woosh);
}

#[test]
fn the_player_returns_once_the_ground_has_settled() {
    let mut animation = flight(CameraMode::FpsController);
    let step = animation.tick(1_000, CONFIG, None).unwrap();
    assert!(step.fly && step.stop_wind && step.arrival_woosh);
    assert!(animation.is_waiting_for_physics());
    assert_eq!(animation.progress(), Some((1, 1)));
    assert_eq!(animation.tick(100, CONFIG, Some(7)).unwrap().arrival, None);
    assert_eq!(animation.tick(499, CONFIG, Some(8)).unwrap().arrival, None);
    assert_eq!(
        animation.tick(1, CONFIG, Some(9)).unwrap().arrival,
        Some(Arrival { respawn: true, ground: Some(9) })
    );
    assert!(!animation.is_active());
    assert!(animation.tick(1, CONFIG, None).is_none());
}

#[test]
fn lost_ground_is_awaited_again() {
    let mut animation = flight(CameraMode::FpsController);
    animation.tick(1_000, CONFIG, Some(1));
    animation.tick(400, CONFIG, None);
    let state = animation.phase.as_ref().map(|p| &p.state);
    assert_eq!(state, Some(&AnimationState::WaitingForPhysics { started_at: 1_000 }));
}

#[test]
fn the_wait_for_ground_ends() {
    let mut animation = flight(CameraMode::Flycam);
    animation.tick(1_000, CONFIG, None);
    assert_eq!(animation.tick(4_999, CONFIG, None).unwrap().arrival, None);
    assert_eq!(
        animation.tick(1, CONFIG, Some(4)).unwrap().arrival,
        Some(Arrival { respawn: false, ground: None })
    );
}

#[test]
fn a_flight_can_be_broken_off() {
    let mut animation = flight(CameraMode::Flycam);
    animation.tick(250, CONFIG, None);
    assert_eq!(animation.cancel(), Some(("plan", 250, 1_000)));
    assert_eq!(animation.cancel(), None);
}

const BANDS: ApexBands = ApexBands {
    short_cm: 100_000,
    city_cm: 1_000_000,
    regional_cm: 10_000_000,
    continental_cm: 100_000_000,
    min_apex_cm: 10_000,
    short_apex_cm: 50_000,
    city_apex_cm: 500_000,
    regional_apex_cm: 5_000_000,
    continental_apex_cm: 50_000_000,
    max_apex_cm: 200_000_000,
};

#[test]
fn longer_flights_climb_higher() {
    assert_eq!(compute_apex_altitude(&BANDS, 0, 0), 10_000);
    assert_eq!(compute_apex_altitude(&BANDS, 50_000, 0), 30_000);
    assert_eq!(compute_apex_altitude(&BANDS, 100_000, 0), 50_000);
    assert_eq!(compute_apex_altitude(&BANDS, 550_000, 0), 275_000);
    assert_eq!(compute_apex_altitude(&BANDS, 10_000_000, 0), 5_000_000);
    assert_eq!(compute_apex_altitude(&BANDS, 150_000_000, 0), 125_000_000);
    assert_eq!(compute_apex_altitude(&BANDS, 4_000_000_000, 0), 200_000_000);
}

#[test]
fn the_apex_clears_a_high_start() {
    assert_eq!(compute_apex_altitude(&BANDS, 0, 1_000_000), 1_010_000);
}

#[test]
fn longer_flights_take_longer() {
    let bands = DurationBands {
        very_short_cm: 1_000,
        short_cm: 10_000,
        medium_cm: 100_000,
        long_cm: 1_000_000,
        min_ns: 100,
        short_ns: 300,
        medium_ns: 600,
        max_ns: 1_000,
    };
    assert_eq!(compute_duration(&bands, 999), 100);
    assert_eq!(compute_duration(&bands, 5_000), 200);
    assert_eq!(compute_duration(&bands, 55_000), 450);
    assert_eq!(compute_duration(&bands, 600_000), 800);
    assert_eq!(compute_duration(&bands, 90_000_000), 1_000);
}

#[test]
fn the_arc_goes_up_and_down() {
    let arc = ArcTrajectory {
        apex_altitude: 1_000,
        start_altitude: 200,
        target_altitude: 0,
        apex_t: 400_000_000,
    };
    assert_eq!(arc.leg(0), Leg::Ascent(0));
    assert_eq!(arc.leg(100_000_000), Leg::Ascent(250_000_000));
    assert_eq!(arc.leg(400_000_000), Leg::Descent(0));
    assert_eq!(arc.leg(700_000_000), Leg::Descent(500_000_000));
    assert_eq!(arc.leg(WHOLE_FLIGHT), Leg::Descent(WHOLE_FLIGHT));
    assert_eq!(arc.altitude_on(Leg::Ascent(0)), 200);
    assert_eq!(arc.altitude_on(Leg::Ascent(500_000_000)), 600);
    assert_eq!(arc.altitude_on(Leg::Ascent(WHOLE_FLIGHT)), 1_000);
    assert_eq!(arc.altitude_on(Leg::Descent(0)), 1_000);
    assert_eq!(arc.altitude_on(Leg::Descent(750_000_000)), 250);
    assert_eq!(arc.altitude_on(Leg::Descent(WHOLE_FLIGHT)), 0);
}
