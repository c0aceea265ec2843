use veldera::camera_mode::CameraMode;
use veldera::launch::SimpleDate;
use veldera::places::GeocodingState;
use veldera::teleport::{TeleportAnimation, TeleportState};
use veldera::ui::camera::{camera_sections, follow_notice, mode_label, TeleportAnimationMode};
use veldera::ui::clouds::{
    cloud_world_time, AtmosphereSubTab, CloudDebugMode, CloudQuality, DAY,
};
use veldera::ui::clock::{date_label, utc_label, ClockTime, TimeMode, TimeSpeed};
use veldera::ui::compass::cardinal_for_bearing;
use veldera::ui::location::{
    go_to, search_status, teleport_status, CoordinateInputState, SearchStatus, TeleportStatus,
};
use veldera::ui::profiler::{
    render_passes, short_system_name, totals, Diagnostic, ProfilerSubTab,
};
use veldera::ui::streaming::{meshes_label, nodes_label};
use veldera::ui::tabs::{DebugTab, DebugUiState};

fn diagnostic(path: &str, value: Option<u64>) -> Diagnostic {
    Diagnostic { path: path.to_string(), value }
}

#[test]
fn system_names_lose_their_path() {
    assert_eq!(
        short_system_name("veldera::rendering::clouds::sync_cloud_world_time"),
        "sync_cloud_world_time"
    );
    assert_eq!(short_system_name("plain"), "plain");
    assert_eq!(short_system_name("a::"), "");
    assert_eq!(short_system_name("a:::b"), "b");
}

#[test]
fn render_passes_are_ranked() {
    let rows = render_passes(&vec![
        diagnostic("render/sky/elapsed_gpu", Some(5)),
        diagnostic("fps", Some(60)),
        diagnostic("render/clouds/march/elapsed_cpu", Some(2)),
        diagnostic("render/clouds/march/elapsed_gpu", Some(9)),
        diagnostic("render/bloom/elapsed_gpu", Some(5)),
        diagnostic("render/shadow/elapsed_cpu", Some(1)),
        diagnostic("render/shadow/pixels", Some(77)),
        diagnostic("render/odd", Some(1)),
        diagnostic("render/ao/elapsed_gpu", None),
    ]);
    let table: Vec<_> = rows.iter().map(|r| (r.name.as_str(), r.gpu, r.cpu)).collect();
    assert_eq!(
        table,
        vec![
            ("clouds/march", Some(9), Some(2)),
            ("bloom", Some(5), None),
            ("sky", Some(5), None),
            ("ao", None, None),
            ("shadow", None, Some(1)),
        ]
    );
    assert_eq!(totals(&rows), (19, 3));
    assert!(render_passes(&vec![]).is_empty());
}

#[test]
fn captions_are_as_they_are() {
    assert_eq!(ProfilerSubTab::Logic.label(), "Logic");
    assert_eq!(ProfilerSubTab::Render.label(), "Render");
    assert_eq!(AtmosphereSubTab::GodRays.label(), "God rays");
    assert_eq!(CloudDebugMode::FogExtinction.label_for(), "Fog extinction × 10⁴");
    assert_eq!(
        CloudDebugMode::Opacity.help_for(),
        "Greyscale = 1 − transmittance from the full raymarch loop."
    );
    assert_eq!(CloudQuality::Medium.label(), "Medium");
    assert_eq!(
        CloudQuality::Low.quality_summary(),
        "32 primary steps, 3 light steps, 2 octaves, 1/4 res. Fastest."
    );
    assert_eq!(mode_label(CameraMode::FpsController), "FPS controller");
    assert_eq!(TeleportAnimationMode::HorizonChasing.label(), "Horizon");
    assert_eq!(nodes_label(12, 3), "Nodes: 12 loaded, 3 loading");
    assert_eq!(meshes_label(0), "Meshes: 0");
    let tabs: Vec<&str> = DebugTab::all().iter().map(|t| t.label()).collect();
    assert_eq!(
        tabs,
        ["Location & time", "Camera", "Vehicles", "Atmosphere", "Streaming", "Physics", "Profiler"]
    );
}

#[test]
fn tabs_are_selected_and_hidden() {
    let mut state = DebugUiState::new();
    assert!(state.visible);
    state.toggle_ui_visible(false);
    assert!(state.visible);
    state.toggle_ui_visible(true);
    assert!(!state.visible);
    assert!(!state.select(None));
    assert!(state.select(Some(DebugTab::Vehicles)));
    assert!(state.select(None));
    assert_eq!(state.selected_tab, DebugTab::Vehicles);
}

#[test]
fn each_mode_has_its_section() {
    let s = camera_sections(CameraMode::Flycam);
    assert!(s.speed && !s.player && !s.follow);
    let s = camera_sections(CameraMode::FpsController);
    assert!(!s.speed && s.player && !s.follow);
    let s = camera_sections(CameraMode::FollowEntity);
    assert!(!s.speed && !s.player && s.follow);
    assert_eq!(follow_notice(false, true), Some("No follow target"));
    assert_eq!(follow_notice(true, false), Some("Target has no FollowCameraConfig"));
    assert_eq!(follow_notice(true, true), None);
}

#[test]
fn the_search_line_counts_down() {
    let mut search: GeocodingState<i32> = GeocodingState::new();
    assert_eq!(search_status(&search, 0), SearchStatus::Ready);
    assert_eq!(SearchStatus::Ready.label(), None);
    search.last_request_time = Some(1_000_000_000);
    assert_eq!(search_status(&search, 1_000_000_000), SearchStatus::Wait(5));
    assert_eq!(search_status(&search, 1_000_000_001), SearchStatus::Wait(5));
    assert_eq!(search_status(&search, 5_000_000_000), SearchStatus::Wait(1));
    assert_eq!(search_status(&search, 6_000_000_000), SearchStatus::Ready);
    search.last_request_time = Some(10_000_000_000);
    assert_eq!(search_status(&search, 0), SearchStatus::Wait(15));
    search.last_request_time = Some(u64::MAX);
    assert_eq!(search_status(&search, 0), SearchStatus::Wait(18_446_744_079));
    assert_eq!(SearchStatus::Wait(3).label(), Some("Wait 3s before next search".to_string()));
    search.is_loading = true;
    assert_eq!(search_status(&search, 0).label(), Some("Searching...".to_string()));
}

#[test]
fn the_teleport_line_tells_the_latest() {
    let mut animation: TeleportAnimation<u8, u8> = TeleportAnimation::new();
    let mut teleport: TeleportState<i32> = TeleportState::new();
    assert_eq!(teleport_status(&animation, &teleport).label(), None);
    teleport.error = Some("no data".to_string());
    assert_eq!(
        teleport_status(&animation, &teleport).label(),
        Some("Teleport failed: no data".to_string())
    );
    teleport.request(1, 2);
    assert_eq!(
        teleport_status(&animation, &teleport).label(),
        Some("Fetching elevation...".to_string())
    );
    animation.begin_flight(0, 100, 10, CameraMode::Flycam);
    assert!(matches!(teleport_status(&animation, &teleport), TeleportStatus::Flying(0, 10)));
    assert_eq!(teleport_status(&animation, &teleport).label(), Some("Flying...".to_string()));
    let config = veldera::teleport::SettleConfig {
        physics_settle_delay: 5,
        physics_wait_timeout: 5,
        descent_start_ppm: 0,
    };
    animation.tick(10, config, None);
    assert_eq!(
        teleport_status(&animation, &teleport).label(),
        Some("Waiting for terrain to load...".to_string())
    );
}

#[test]
fn fields_are_not_overwritten_while_edited() {
    let mut fields = CoordinateInputState::new();
    assert_eq!(fields.translate_distance, 1000);
    fields.show_position("1.000000", "2.000000", false);
    assert_eq!((fields.lat_text.as_str(), fields.lon_text.as_str()), ("1.000000", "2.000000"));
    fields.focus();
    fields.show_position("3", "4", false);
    assert_eq!(fields.lat_text, "1.000000");
    assert_eq!(fields.submit(Some(5), Some(6)), Some((5, 6)));
    assert!(!fields.is_editing);
    assert_eq!(fields.submit(Some(5), None), None);
    fields.show_position("3", "4", true);
    assert_eq!(fields.lat_text, "1.000000");
}

#[test]
fn going_to_a_place_clears_the_results() {
    let mut search: GeocodingState<i32> = GeocodingState::new();
    let found = veldera::places::GeocodingResult { display_name: "x".to_string(), lat: 1, lon: 2 };
    search.finish_request(Ok(vec![found]));
    let mut teleport = TeleportState::new();
    let ticket = go_to(&mut search, &mut teleport, 1, 2);
    assert!(search.results.is_empty());
    assert_eq!(teleport.poll_elevation(ticket, Ok(3)), Some((1, 2, 3)));
}

#[test]
fn a_pause_keeps_the_speed_of_time() {
    let mut time =
        TimeSpeed { mode: TimeMode::Realtime, speed: 60_000_000, last_unpaused_speed: 1_000_000 };
    time.toggle_pause();
    assert_eq!(time.speed, 0);
    assert_eq!(time.slider_speed(), 60_000_000);
    time.choose_speed(5_000_000);
    assert_eq!(time.speed, 0);
    time.toggle_pause();
    assert_eq!(time.speed, 60_000_000);
    time.choose_speed(1_000_000);
    assert_eq!(time.mode, TimeMode::Realtime);
    time.choose_speed(2_000_000);
    assert_eq!((time.mode, time.speed), (TimeMode::Override, 2_000_000));
    let mut slow = TimeSpeed { mode: TimeMode::Override, speed: 0, last_unpaused_speed: 5 };
    slow.toggle_pause();
    assert_eq!(slow.speed, 100_000);
}

#[test]
fn bearings_have_sixteen_points() {
    assert_eq!(cardinal_for_bearing(0), "N");
    assert_eq!(cardinal_for_bearing(11_249_999), "N");
    assert_eq!(cardinal_for_bearing(11_250_000), "NNE");
    assert_eq!(cardinal_for_bearing(90_000_000), "E");
    assert_eq!(cardinal_for_bearing(225_000_000), "SW");
    assert_eq!(cardinal_for_bearing(337_500_000), "NNW");
    assert_eq!(cardinal_for_bearing(348_750_000), "N");
    assert_eq!(cardinal_for_bearing(360_000_000), "N");
    assert_eq!(cardinal_for_bearing(-90_000_000), "W");
    assert_eq!(cardinal_for_bearing(-360_000_000), "N");
    assert_eq!(cardinal_for_bearing(i64::MIN), cardinal_for_bearing(i64::MIN + 360_000_000));
}

#[test]
fn dates_and_clocks_are_written_out() {
    assert_eq!(date_label(SimpleDate { year: 2024, month: 3, day: 9 }), "Date: 2024-03-09");
    assert_eq!(date_label(SimpleDate { year: -5, month: 12, day: 31 }), "Date: -5-12-31");
    assert_eq!(utc_label(ClockTime { hours: 7, minutes: 5, seconds: 9 }), "UTC: 07:05:09");
}

#[test]
fn the_clock_of_the_clouds_starts_over() {
    assert_eq!(cloud_world_time(0, 5), 5);
    assert_eq!(cloud_world_time(1, 0), DAY);
    // Twelve days are 1,036,800 seconds.
    assert_eq!(cloud_world_time(12, 0), 36_800_000_000_000);
}
