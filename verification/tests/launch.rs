use veldera::camera_mode::{
    process_mode_transitions, CameraAction, CameraMode, CameraModeState, CameraModeTransitions,
};
use veldera::decimal::{parse_i32, parse_u32, push_padded, IntError};
use veldera::launch::{
    parse_datetime, read_datetime, request_launch_mode, DateTimeError, DateTimeField,
    DateTimeOverride, LaunchConfig, LaunchGate, LaunchParams, LoadedConfigs, SimpleDate,
};
use veldera::moon::{date_to_unix_days, time_since_j2000, MoonState, DAY_NS, NOON_NS};
use veldera::text::chars_of;

fn date(year: i32, month: u32, day: u32) -> SimpleDate {
    SimpleDate { year, month, day }
}

#[test]
fn a_date_time_reads_back() {
    let dt = DateTimeOverride { date: date(2024, 6, 5), seconds: 3 * 3600 + 4 * 60 + 5 };
    assert_eq!(dt.to_text(), "2024-06-05T03:04:05");
    assert_eq!(read_datetime("2024-06-05T03:04:05"), Ok(dt));
    assert_eq!(read_datetime("2024-06-05 03:04:05"), Ok(dt));
    let early = DateTimeOverride { date: date(7, 12, 31), seconds: 86399 };
    assert_eq!(early.to_text(), "0007-12-31T23:59:59");
    assert_eq!(read_datetime(&early.to_text()), Ok(early));
}

#[test]
fn a_year_before_zero_does_not_read_back() {
    let dt = DateTimeOverride { date: date(-1, 1, 1), seconds: 0 };
    assert_eq!(dt.to_text(), "-001-01-01T00:00:00");
    assert_eq!(read_datetime("-001-01-01T00:00:00"), Err(DateTimeError::Shape));
}

#[test]
fn misshapen_date_times_are_refused() {
    for text in ["", "2024-06-05", "2024-06T03:04:05", "2024-06-05T03:04", "a T b T c"] {
        assert_eq!(read_datetime(text), Err(DateTimeError::Shape));
    }
    assert_eq!(
        parse_datetime("2024-06-05 3"),
        Err("expected YYYY-MM-DDTHH:MM:SS, got '2024-06-05T3'".to_string())
    );
}

#[test]
fn parts_that_are_no_numbers_are_named() {
    let said = |text: &str| parse_datetime(text).unwrap_err();
    assert_eq!(said("x-1-1T0:0:0"), "invalid year: invalid digit found in string");
    assert_eq!(said("1--1T0:0:0"), "invalid month: cannot parse integer from empty string");
    assert_eq!(said("1-1-+T0:0:0"), "invalid day: invalid digit found in string");
    assert_eq!(said("1-1-1T99999999999:0:0"), "invalid hour: number too large to fit in target type");
    assert_eq!(said("1-1-1T0:1x:0"), "invalid minute: invalid digit found in string");
    assert_eq!(said("1-1-1T0:0:"), "invalid second: cannot parse integer from empty string");
}

#[test]
fn parts_out_of_range_are_named() {
    let said = |text: &str| parse_datetime(text).unwrap_err();
    assert_eq!(said("1-13-1T0:0:0"), "month out of range: 13");
    assert_eq!(said("1-0-1T0:0:0"), "month out of range: 0");
    assert_eq!(said("1-1-32T0:0:0"), "day out of range: 32");
    assert_eq!(said("1-1-0T0:0:0"), "day out of range: 0");
    assert_eq!(said("1-1-1T24:0:0"), "hour out of range: 24");
    assert_eq!(said("1-1-1T0:60:0"), "minute out of range: 60");
    assert_eq!(said("1-1-1T0:0:60"), "second out of range: 60");
    assert_eq!(
        read_datetime("1-13-1T0:0:0"),
        Err(DateTimeError::OutOfRange(DateTimeField::Month, 13))
    );
    assert_eq!(DateTimeField::Year.name(), "year");
}

#[test]
fn numbers_are_read_like_numbers() {
    assert_eq!(parse_u32(&chars_of("+42")), Ok(42));
    assert_eq!(parse_u32(&chars_of("4294967295")), Ok(u32::MAX));
    assert_eq!(parse_u32(&chars_of("4294967296")), Err(IntError::PosOverflow));
    assert_eq!(parse_u32(&chars_of("-1")), Err(IntError::InvalidDigit));
    assert_eq!(parse_u32(&chars_of("")), Err(IntError::Empty));
    assert_eq!(parse_i32(&chars_of("-2147483648")), Ok(i32::MIN));
    assert_eq!(parse_i32(&chars_of("-2147483649")), Err(IntError::NegOverflow));
    assert_eq!(parse_i32(&chars_of("2147483648")), Err(IntError::PosOverflow));
    assert_eq!(parse_i32(&chars_of("-")), Err(IntError::InvalidDigit));
    let mut text = String::from("n");
    push_padded(&mut text, 7, 3);
    push_padded(&mut text, 1234, 3);
    assert_eq!(text, "n0071234");
}

fn no_params() -> LaunchParams<i32> {
    LaunchParams {
        lat: None,
        lon: None,
        altitude: None,
        camera_mode: None,
        datetime: None,
        datetime_local: None,
    }
}

fn config() -> LaunchConfig<i32> {
    LaunchConfig {
        default_lat: 407,
        default_lon: -740,
        default_altitude: 200,
        default_camera_mode: CameraMode::Flycam,
    }
}

#[test]
fn given_values_win_over_defaults() {
    let launch = no_params().resolve(&config(), None);
    assert_eq!((launch.lat, launch.lon, launch.altitude), (407, -740, 200));
    assert_eq!(launch.camera_mode, CameraMode::Flycam);
    assert_eq!(launch.datetime, None);
    let params = LaunchParams {
        lat: Some(1),
        lon: Some(2),
        altitude: Some(3),
        camera_mode: Some(CameraMode::FpsController),
        ..no_params()
    };
    let launch = params.resolve(&config(), None);
    assert_eq!((launch.lat, launch.lon, launch.altitude), (1, 2, 3));
    assert_eq!(launch.camera_mode, CameraMode::FpsController);
}

#[test]
fn local_time_is_converted_at_the_longitude_of_the_launch() {
    let local = DateTimeOverride { date: date(2024, 1, 1), seconds: 10 };
    let utc = DateTimeOverride { date: date(2024, 1, 2), seconds: 20 };
    let params = LaunchParams { datetime_local: Some(local), ..no_params() };
    assert_eq!(params.local_time(&config()), Some((local, -740)));
    assert_eq!(params.resolve(&config(), Some(utc)).datetime, Some(utc));
    let both = LaunchParams { datetime: Some(local), datetime_local: Some(utc), lon: Some(5), ..no_params() };
    assert_eq!(both.local_time(&config()), None);
    assert_eq!(both.resolve(&config(), None).datetime, Some(local));
}

#[test]
fn the_camera_comes_once_everything_is_loaded() {
    let all = LoadedConfigs {
        launch: true,
        camera: true,
        atmosphere: true,
        clouds: true,
        cloud_engine: true,
    };
    let mut gate = LaunchGate { spawned: false };
    assert!(!gate.open(LoadedConfigs { clouds: false, ..all }));
    assert!(gate.open(all));
    assert!(!gate.open(all));
}

#[test]
fn a_launch_asks_for_first_person_only() {
    let mut state = CameraModeState::default();
    let mut transitions = CameraModeTransitions::new();
    request_launch_mode(CameraMode::Flycam, &mut transitions);
    request_launch_mode(CameraMode::FollowEntity, &mut transitions);
    assert!(process_mode_transitions(&mut transitions, &mut state).is_empty());
    request_launch_mode(CameraMode::FpsController, &mut transitions);
    assert_eq!(
        process_mode_transitions(&mut transitions, &mut state),
        vec![CameraAction::SetUpFpsFromFlycam]
    );
    assert!(state.is_fps_controller());
}

#[test]
fn days_are_counted_from_the_epoch() {
    assert_eq!(date_to_unix_days(date(1970, 1, 1)), 0);
    assert_eq!(date_to_unix_days(date(1969, 12, 31)), -1);
    assert_eq!(date_to_unix_days(date(2000, 3, 1)), 11017);
    assert_eq!(date_to_unix_days(date(2024, 2, 29)), 19782);
    assert_eq!(date_to_unix_days(date(2370, 1, 1)) - date_to_unix_days(date(1970, 1, 1)), 146097);
    assert_eq!(time_since_j2000(date(2000, 1, 1), NOON_NS), 0);
    assert_eq!(time_since_j2000(date(2001, 1, 1), NOON_NS + 5), 366 * i128::from(DAY_NS) + 5);
    assert_eq!(time_since_j2000(date(1999, 12, 31), 0), -i128::from(DAY_NS) - i128::from(NOON_NS));
}

#[test]
fn phases_have_names() {
    let name = |illuminated_ppm, waxing| MoonState { illuminated_ppm, waxing }.phase_name();
    assert_eq!(name(19_999, true), "New");
    assert_eq!(name(20_000, true), "Waxing Crescent");
    assert_eq!(name(480_000, false), "Waning Crescent");
    assert_eq!(name(480_001, true), "First Quarter");
    assert_eq!(name(519_999, false), "Last Quarter");
    assert_eq!(name(520_000, true), "Waxing Gibbous");
    assert_eq!(name(980_000, false), "Waning Gibbous");
    assert_eq!(name(980_001, false), "Full");
}
