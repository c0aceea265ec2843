use veldera::blend::clamp;
use veldera::body::{BodyTuning, ResolvedMetrics};
use veldera::camera_mode::CameraMode;
use veldera::decimal::{push_fixed, push_signed, Scientific, Vector};
use veldera::moon::MoonState;
use veldera::movement::FpsPlayerConfig;
use veldera::ui::camera::{
    choose_height, choose_radius_ratio, mode_line, model_label, size_label, tune_eyes, EyeEdit,
    EyeLimits,
};
use veldera::ui::climate::{
    image_size, layer_heading, shadow_slider, ClimateControl, ClimateImage, ClimatePanel,
    ClimateSettings, ClimateSwitch, GodRayControl, GodRaySettings, LayerControl, LayerSettings,
    SimSettings,
};
use veldera::ui::clock::{
    chosen_hour, date_notice, declination_label, local_label, moon_label, ClockTime, TimeMode, TimeSpeed,
};
use veldera::ui::clouds::{
    clouds_notice, world_time_label, AtmosphereSubTab, CloudDebugMode, CloudQuality,
};
use veldera::ui::compass::{bearing_of, heading_label, Cardinal};
use veldera::ui::help::{lock_help, shadow_help, steps_help};
use veldera::ui::inspector::{inspect_page, InspectCursor, InspectData, Pointer};
use veldera::ui::location::{
    attribution, coordinate_text, position_label, slider_altitude, CoordinateInputState, MoveDistance,
};
use veldera::ui::profiler::{
    logic_page, pass_table, passes_label, render_page, Diagnostic, PassRow, SystemSample, TableRow,
};
use veldera::ui::shadow_diag::{CameraMeasures, CloudLayer, ShadowDiagnostics};
use veldera::ui::table::Row;

const ONE: i64 = 1_000_000_000;

fn fixed(billionths: i64, places: u32) -> String {
    let mut s = String::new();
    push_fixed(&mut s, billionths, places);
    s
}

fn vector(x: i64, y: i64, z: i64) -> Vector {
    Vector { x, y, z }
}

fn lines(rows: &[Row]) -> Vec<(&str, &str)> {
    rows.iter().map(|r| (r.label, r.value.as_str())).collect()
}

fn cells(rows: &[TableRow]) -> Vec<(&str, &str, &str)> {
    rows.iter().map(|r| (r.name.as_str(), r.second.as_str(), r.third.as_str())).collect()
}

#[test]
fn numbers_are_rounded_as_floats_are() {
    assert_eq!(fixed(1_500_000_000, 0), format!("{:.0}", 1.5));
    assert_eq!(fixed(2_500_000_000, 0), format!("{:.0}", 2.5));
    assert_eq!(fixed(250_000_000, 1), format!("{:.1}", 0.25));
    assert_eq!(fixed(750_000_000, 1), format!("{:.1}", 0.75));
    assert_eq!(fixed(-400_000, 3), format!("{:.3}", -0.0004));
    assert_eq!(fixed(-12_345_678_901, 5), format!("{:.5}", -12.345678901));
    assert_eq!(fixed(999_999_999, 3), "1.000");
    assert_eq!(fixed(0, 9), "0.000000000");
    assert_eq!(fixed(i64::MIN, 0), "-9223372037");
    let mut s = String::new();
    push_signed(&mut s, i64::MIN);
    assert_eq!(s, i64::MIN.to_string());
}

#[test]
fn scientific_numbers_have_an_exponent() {
    let mut s = String::new();
    Scientific { thousandths: -1234, exponent: -8 }.push_to(&mut s);
    assert_eq!(s, format!("{:.3e}", -1.234e-8));
    let mut s = String::new();
    Scientific { thousandths: 0, exponent: 0 }.push_to(&mut s);
    assert_eq!(s, format!("{:.3e}", 0.0));
}

#[test]
fn the_inspector_follows_the_pointer() {
    let mut cursor = InspectCursor { x: 1, y: 2, active: false, lock_to_centre: false };
    let at = Pointer {
        width: 800_000_000_000,
        height: 600_000_000_000,
        x: 200_000_000_000,
        y: 150_000_000_000,
    };
    cursor.follow(Some(at), false);
    assert_eq!((cursor.x, cursor.y, cursor.active), (250_000_000, 250_000_000, true));
    assert_eq!(cursor.label(), "Cursor UV: (0.250, 0.250) — active");
    cursor.follow(Some(at), true);
    assert!(!cursor.active);
    cursor.follow(None, false);
    assert_eq!((cursor.x, cursor.active), (250_000_000, false));
    assert_eq!(cursor.label(), "Cursor UV: (0.250, 0.250) — off-cloud");
    cursor.lock_to_centre = true;
    cursor.follow(None, true);
    assert_eq!((cursor.x, cursor.y, cursor.active), (500_000_000, 500_000_000, true));
    let mut none = InspectCursor { x: 0, y: 0, active: false, lock_to_centre: false };
    none.follow(Some(Pointer { width: 0, height: 0, x: 500_000_000, y: 0 }), false);
    assert_eq!(none.x, 500_000_000);
}

#[test]
fn a_ray_is_written_out() {
    let data = InspectData {
        cam_proj: 6_371_000_125_000_000,
        t_start: 1_005_000_000,
        t_end: 2 * ONE,
        chord_length: ONE,
        k_first: -3,
        k_last: 7,
        max_iter: 64,
        iter_count: 11,
        transmittance: 123_456_789,
        opacity: 876_543_211,
        first_hit_t: 1_250_000_000,
        first_hit_density: Scientific { thousandths: 2500, exponent: -3 },
        first_hit_pos: vector(ONE, -2 * ONE, 499_999_999),
    };
    let Ok(rows) = inspect_page(&Some(data)) else { panic!() };
    assert_eq!(
        lines(&rows),
        vec![
            ("cam_proj", "6371000.12 m"),
            ("t_start", "1.00 m"),
            ("t_end", "2.00 m"),
            ("chord_length", "1.00 m"),
            ("k_first", "-3"),
            ("k_last", "7"),
            ("max_iter", "64"),
            ("iter_count", "11"),
            ("transmittance", "0.1235"),
            ("opacity", "0.8765"),
            ("first_hit_t", "1.25 m"),
            ("first_hit_density", "2.500e-3 m⁻¹"),
            ("first_hit_pos", "(1, -2, 0)"),
        ]
    );
}

fn measures(x: i64) -> CameraMeasures {
    let zero = Scientific { thousandths: 0, exponent: 0 };
    CameraMeasures {
        cam_ecef: vector(x, 0, 0),
        cam_ecef_quant: vector(x - 500_000_000, 0, 0),
        camera_radius: x,
        local_up: vector(ONE, 0, 0),
        right: vector(0, ONE, 0),
        forward: vector(0, 0, ONE),
        right_dot_up: zero,
        forward_dot_up: zero,
    }
}

fn layer(kind: &str, metres: i64) -> CloudLayer {
    CloudLayer { kind: kind.to_string(), noise_tile: metres * ONE }
}

#[test]
fn shadow_frames_move_on() {
    let mut diag = ShadowDiagnostics::new();
    assert!(matches!(diag.noise_rows(), Err("(no cloud layers)")));
    assert_eq!(diag.frame_label(), "Frame: 0");
    diag.update(measures(6_371_000 * ONE), &vec![layer("Cirrus", 1000)]);
    diag.update(measures(6_371_003 * ONE), &vec![layer("Cirrus", 1000), layer("Stratus", 0)]);
    assert_eq!(diag.frame_count, 2);
    assert_eq!(diag.frame_label(), "Frame: 1");
    assert_eq!(diag.previous.frame, 0);
    let rows = diag.camera_rows(6_371_000 * ONE);
    assert_eq!(
        lines(&rows),
        vec![
            ("cam_ecef (f64)", "(6371003.000, 0.000, 0.000) m"),
            ("cam_ecef (f32 quant)", "(6371002.500, 0.000, 0.000) m"),
            ("  quantisation error", "0.5000 m"),
            ("Δcam_ecef (this frame)", "(3.00000, 0.00000, 0.00000) m"),
            ("  |Δ|", "3.00000 m"),
            ("camera_radius", "6371003.000 m"),
            ("altitude", "3.000 m"),
            ("local_up", "(1.000000, 0.000000, 0.000000)"),
        ]
    );
    let rows = diag.basis_rows();
    assert_eq!(
        lines(&rows),
        vec![
            ("right", "(0.000000, 1.000000, 0.000000)"),
            ("forward", "(0.000000, 0.000000, 1.000000)"),
            ("center (= cam_ecef_quant)", "(6371002.500, 0.000, 0.000) m"),
            ("  right · up", "0.000e0"),
            ("  forward · up", "0.000e0"),
        ]
    );
    let Ok(rows) = diag.noise_rows() else { panic!() };
    let table: Vec<_> =
        rows.iter().map(|r| (r.layer.as_str(), r.offset.as_str(), r.tile.as_str())).collect();
    assert_eq!(
        table,
        vec![
            ("layer", "offset (x, y, z)", "tile"),
            ("layer 0 (Cirrus)", "(0.00250, 0.00000, 0.00000)", "1000.0 m"),
            ("  Δ this frame", "(-0.997000, 0.000000, 0.000000)", ""),
            ("layer 1 (Stratus)", "(0.50000, 0.00000, 0.00000)", "0.0 m"),
        ]
    );
}

#[test]
fn noise_repeats_with_its_tile() {
    let layers = vec![layer("Cirrus", 700)];
    let mut near = ShadowDiagnostics::new();
    near.update(measures(-123 * ONE), &layers);
    let mut far = ShadowDiagnostics::new();
    far.update(measures((-123 + 700 * 9) * ONE), &layers);
    let offset = near.current.noise_uv_offsets[0].offset;
    assert_eq!(offset, far.current.noise_uv_offsets[0].offset);
    assert_eq!(offset.x, (576_500_000_000_i128 * 1_000_000_000 / 700_000_000_000) as i64);
}

#[test]
fn render_times_are_tabled() {
    let rows = vec![
        PassRow { name: "sky".to_string(), gpu: Some(1_234_500), cpu: None },
        PassRow { name: "ao".to_string(), gpu: None, cpu: Some(499) },
    ];
    let table = pass_table(&rows);
    assert_eq!(
        cells(&table),
        vec![
            ("Pass", "GPU ms", "CPU ms"),
            ("sky", "1.234", "—"),
            ("ao", "—", "0.000"),
            ("Total", "1.234", "0.000"),
        ]
    );
    let huge = vec![
        PassRow { name: "a".to_string(), gpu: Some(u64::MAX), cpu: Some(1_235_000) },
        PassRow { name: "b".to_string(), gpu: Some(u64::MAX), cpu: Some(501) },
    ];
    assert_eq!(
        passes_label(&huge),
        "Per-pass GPU / CPU time (smoothed). Total GPU: 36893488147419.103 ms, \
         total CPU: 1.236 ms"
    );
}

#[test]
fn the_render_page_sums_its_passes() {
    let measured = |path: &str, value| Diagnostic { path: path.to_string(), value };
    let page = render_page(&vec![
        measured("render/ao/elapsed_gpu", Some(1_000_000)),
        measured("fps", Some(60)),
        measured("render/sky/elapsed_gpu", Some(2_500_000)),
        measured("render/sky/elapsed_cpu", Some(250_000)),
    ]);
    assert_eq!(
        page.label,
        "Per-pass GPU / CPU time (smoothed). Total GPU: 3.500 ms, total CPU: 0.250 ms"
    );
    let (note, table) = page.body.unwrap();
    assert!(note.ends_with("where timestamp queries aren't supported."));
    assert_eq!(
        cells(&table),
        vec![
            ("Pass", "GPU ms", "CPU ms"),
            ("sky", "2.500", "0.250"),
            ("ao", "1.000", "—"),
            ("Total", "3.500", "0.250"),
        ]
    );
    let none = render_page(&vec![measured("fps", Some(60))]);
    assert_eq!(none.label, "No render diagnostics yet.");
    assert!(none.body.is_none());
}

#[test]
fn system_times_are_tabled() {
    let samples =
        vec![SystemSample { name: "a::b::run".to_string(), total: 2_000_000, count: 10 }];
    let page = logic_page(&samples, 2_000_000);
    assert_eq!(page.label, "Per-system CPU time (10-frame smoothed). Total: 2.000 ms");
    let (note, table) = page.body.unwrap();
    assert!(note.starts_with("Note: parallel systems can overlap"));
    assert_eq!(cells(&table), vec![("System", "ms / frame", "count"), ("run", "2.000", "10")]);
    let none = logic_page(&vec![], 0);
    assert!(none.label.starts_with("No CPU profiling data yet"));
    assert!(none.body.is_none());
}

#[test]
fn panels_say_what_is_missing() {
    assert!(matches!(
        inspect_page(&None),
        Err("No inspect data yet (waiting for first GPU readback).")
    ));
    assert_eq!(clouds_notice(0), Some("No CloudLayers found on any camera."));
    assert_eq!(clouds_notice(1), None);
    assert_eq!(clouds_notice(2), clouds_notice(0));
    assert_eq!(date_notice(false), Some("(invalid date)"));
    assert_eq!(date_notice(true), None);
    assert_eq!(attribution(), "Search by Nominatim © OpenStreetMap");
    assert!(lock_help().starts_with("Pins the inspect cursor"));
}

fn climate_panel() -> ClimatePanel {
    ClimatePanel {
        climate: ClimateSettings {
            enabled: true,
            latitude_strength: 0,
            ocean_strength: 0,
            itcz_seasonal_shift_deg: 12 * ONE,
            itcz_north_bias_deg: 5 * ONE,
        },
        sim: SimSettings {
            enabled: true,
            tau_seconds: 86_400_000_000_000,
            wind_speed: ONE,
            wind_meander: 0,
            coriolis: true,
            dt_seconds: 60 * ONE,
            vorticity_enabled: false,
            vorticity_strength: 200_000,
            vorticity_forcing: 80_000,
            vorticity_damping_seconds: 86_400_000_000_000,
        },
    }
}

#[test]
fn climate_sliders_stay_between_their_ends() {
    let mut panel = climate_panel();
    assert_eq!(panel.shown(ClimateControl::Tau), 24 * ONE);
    panel.move_slider(ClimateControl::Tau, 2 * ONE);
    assert_eq!(panel.sim.tau_seconds, 7_200_000_000_000);
    panel.move_slider(ClimateControl::Tau, 1000 * ONE);
    assert_eq!(panel.shown(ClimateControl::Tau), 720 * ONE);
    panel.move_slider(ClimateControl::NorthBias, -11 * ONE);
    assert_eq!(panel.climate.itcz_north_bias_deg, -10 * ONE);
    let slider = ClimateControl::VorticityForcing.slider();
    assert_eq!(
        (slider.caption, slider.low, slider.high, slider.logarithmic, slider.integer),
        ("vorticity forcing", 0, 1_000_000, true, false)
    );
}

#[test]
fn switches_hold_their_sliders() {
    let mut panel = climate_panel();
    assert!(!panel.is_movable(ClimateControl::VorticityDamping));
    panel.move_slider(ClimateControl::VorticityDamping, ONE);
    assert_eq!(panel, climate_panel());
    panel.tick(ClimateSwitch::Vorticity);
    panel.move_slider(ClimateControl::VorticityDamping, ONE);
    assert_eq!(panel.sim.vorticity_damping_seconds, 3_600_000_000_000);
    panel.tick(ClimateSwitch::Sim);
    panel.tick(ClimateSwitch::Vorticity);
    panel.tick(ClimateSwitch::Coriolis);
    assert!(panel.sim.vorticity_enabled && panel.sim.coriolis && !panel.sim.enabled);
    assert!(!panel.is_movable(ClimateControl::VorticityDamping));
    panel.tick(ClimateSwitch::Climate);
    assert!(!panel.is_movable(ClimateControl::NorthBias));
    assert_eq!(ClimateSwitch::Vorticity.label(), "Vorticity-streamfunction enabled");
}

#[test]
fn climate_images_fit_the_panel() {
    assert_eq!(image_size(300_000_000_000), (300_000_000_000, 150_000_000_000));
    assert_eq!(image_size(900_000_000_000), (512_000_000_000, 256_000_000_000));
    assert_eq!(ClimateImage::Topography.notice(), "(topography asset still loading…)");
    assert_eq!(ClimateImage::ClimateMap.label(), "Climate forcing (static bake):");
}

#[test]
fn layer_sliders_stay_between_their_ends() {
    let mut settings = LayerSettings {
        enabled: false,
        inner_altitude: 0,
        outer_altitude: 0,
        coverage: 0,
        density_scale: 0,
        noise_tile: 0,
        weather_tile: 0,
        weather_strength: 0,
        climate_strength: 0,
        wind_east: 0,
        wind_north: 0,
        evolution_rate: 0,
        hg_forward: 0,
        hg_backward: 0,
        hg_blend: 0,
    };
    settings.move_slider(LayerControl::BackwardPhase, -ONE);
    assert_eq!(settings.hg_backward, -990_000_000);
    settings.move_slider(LayerControl::WindNorth, 51 * ONE);
    assert_eq!((settings.wind_north, settings.wind_east), (50 * ONE, 0));
    settings.move_slider(LayerControl::NoiseTile, 300 * ONE);
    assert_eq!(settings.shown(LayerControl::NoiseTile), 300 * ONE);
    assert_eq!(layer_heading(0, "Cirrus"), ("Layer 0: Cirrus".to_string(), true));
    assert_eq!(layer_heading(3, "Stratus"), ("Layer 3: Stratus".to_string(), false));
}

#[test]
fn god_rays_have_their_steps() {
    let mut rays = GodRaySettings {
        enabled: true,
        num_steps: 32,
        max_distance: 100_000 * ONE,
        scatter_rate: 20_000,
        atmo_scale_height: 8000 * ONE,
        hg_g: 700_000_000,
    };
    rays.move_steps(-1);
    assert_eq!(rays.num_steps, 4);
    rays.move_steps(40);
    assert_eq!(rays.num_steps, 40);
    rays.move_slider(GodRayControl::ScatterRate, 0);
    assert_eq!(rays.shown(GodRayControl::ScatterRate), 1000);
    rays.enabled = false;
    rays.move_steps(9);
    rays.move_slider(GodRayControl::PhaseG, 0);
    assert_eq!((rays.num_steps, rays.hg_g), (40, 700_000_000));
    assert_eq!(shadow_slider().high, 5 * ONE);
}

#[test]
fn cloud_choices_come_in_order() {
    assert_eq!(AtmosphereSubTab::all().len(), 5);
    assert_eq!(AtmosphereSubTab::all()[3], AtmosphereSubTab::GodRays);
    assert_eq!(CloudDebugMode::all().len(), 11);
    assert_eq!(CloudDebugMode::all()[10], CloudDebugMode::Topography);
    assert_eq!(CloudQuality::all()[2], CloudQuality::High);
    assert_eq!(
        world_time_label(1_250_000_000),
        "World time: 1.2 s (wind / weather derive from this; set the world clock to move clouds)"
    );
}

fn model() -> ResolvedMetrics {
    ResolvedMetrics {
        stand_height: 1_800_000,
        eye_height: 1_650_000,
        eye_forward_offset: 95_000,
        head_bone_y: 1_600_000,
        head_bone_name: "Head".to_string(),
    }
}

#[test]
fn eyes_are_tuned_within_limits() {
    let limits =
        EyeLimits { height: (1_000_000, 2_000_000), forward: (0, 300_000), lerp_duration: 5 };
    let mut tuning = BodyTuning {
        eye_height: 1_500_000,
        eye_forward_offset: 0,
        eye_lerp_duration: 1,
        initialised_from_model: true,
    };
    let before = tuning;
    tune_eyes(&mut tuning, EyeEdit::Height(9_000_000), limits, &None);
    assert_eq!(tuning, before);
    let known = Some(model());
    tune_eyes(&mut tuning, EyeEdit::Height(9_000_000), limits, &known);
    tune_eyes(&mut tuning, EyeEdit::Forward(-1), limits, &known);
    tune_eyes(&mut tuning, EyeEdit::LerpDuration(7), limits, &known);
    assert_eq!(
        (tuning.eye_height, tuning.eye_forward_offset, tuning.eye_lerp_duration),
        (2_000_000, 0, 5)
    );
    tune_eyes(&mut tuning, EyeEdit::ResetHeight, limits, &known);
    tune_eyes(&mut tuning, EyeEdit::ResetForward, limits, &known);
    assert_eq!((tuning.eye_height, tuning.eye_forward_offset), (1_650_000, 95_000));
    assert_eq!(model_label(&known), "Model: stand=1.800 m, eye=1.650 m, fwd=0.095 m");
    assert_eq!(model_label(&None), "(character model not loaded yet)");
}

#[test]
fn the_player_is_sized() {
    let mut config = FpsPlayerConfig {
        height: 1_800_000,
        radius_ratio: 200_000,
        crouch_height_ratio: 500_000,
        min_radius_ratio: 100_000,
        max_radius_ratio: 300_000,
    };
    choose_height(&mut config, 100);
    assert_eq!(config.height, 500_000);
    choose_height(&mut config, 2_000_000);
    choose_radius_ratio(&mut config, 900_000);
    assert_eq!(config.radius_ratio, 300_000);
    assert_eq!(size_label(&config), "Capsule radius: 0.60 m, eye height: 2.00 m");
    assert_eq!(mode_line(CameraMode::Flycam), "Mode: Flycam (N to toggle)");
}

#[test]
fn the_compass_reads_the_heading() {
    assert_eq!(bearing_of(None), 0);
    assert_eq!(bearing_of(Some(-90_000_000)), 270_000_000);
    assert_eq!(bearing_of(Some(180_000_000)), 180_000_000);
    assert_eq!(heading_label(0), "Heading:   0.0° (N)");
    assert_eq!(heading_label(45_040_000), "Heading:  45.0° (NE)");
    assert_eq!(heading_label(270_000_000), "Heading: 270.0° (W)");
    assert_eq!(Cardinal::West.bearing(), 270);
    assert_eq!(Cardinal::East.label(), "E");
}

#[test]
fn precise_moves_have_a_distance() {
    let mut fields = CoordinateInputState::new();
    assert!(fields.is_chosen(MoveDistance::Kilometre));
    fields.choose_distance(MoveDistance::FiftyKilometres);
    assert!(!fields.is_chosen(MoveDistance::Kilometre));
    assert_eq!(fields.move_label(), "Move 50000 m:");
    assert_eq!(fields.translation(Cardinal::South), (180, 50_000));
    let captions: Vec<&str> = MoveDistance::all().iter().map(|d| d.label()).collect();
    assert_eq!(captions, ["100 m", "1 km", "10 km", "50 km", "100 km"]);
}

#[test]
fn latitudes_stay_between_the_poles() {
    let mut fields = CoordinateInputState::new();
    assert_eq!(fields.submit(Some(95 * ONE), Some(200 * ONE)), Some((90 * ONE, 200 * ONE)));
    assert_eq!(fields.submit(Some(-95 * ONE), Some(0)), Some((-90 * ONE, 0)));
}

#[test]
fn places_are_written_out() {
    assert_eq!(
        position_label(59_700_000_000, vector(-6_371_000 * ONE, 400_000_000, 0)),
        "FPS: 60  ·  Position: (-6371000, 0, 0)"
    );
    assert_eq!(coordinate_text(-33_868_820_000), "-33.868820");
    assert_eq!(slider_altitude(-5), ONE);
    assert_eq!(slider_altitude(i64::MAX), 10_000_000 * ONE);
    assert_eq!(slider_altitude(500 * ONE), clamp(500 * ONE, 0, i64::MAX));
}

#[test]
fn clocks_are_set_by_hand() {
    let time = ClockTime { hours: 23, minutes: 4, seconds: 0 };
    assert_eq!(local_label(time, 5_500_000_000), "Local: 23:04:00 (UTC+5.5)");
    assert_eq!(local_label(time, -8_000_000_000), "Local: 23:04:00 (UTC-8.0)");
    assert_eq!(chosen_hour(5_000_000_000, 5_010_000_000), None);
    assert_eq!(chosen_hour(5_000_000_000, 5_010_000_001), Some(5_010_000_001));
    assert_eq!(chosen_hour(5_000_000_000, 0), Some(0));
    let mut speed = TimeSpeed { mode: TimeMode::Realtime, speed: 7, last_unpaused_speed: 1 };
    speed.choose_manual();
    assert_eq!((speed.mode, speed.speed), (TimeMode::Override, 7));
}

#[test]
fn sun_and_moon_are_written_out() {
    assert_eq!(declination_label(-23_440_000_000), "Sun declination: -23.4°");
    let moon = MoonState { illuminated_ppm: 505_000, waxing: true };
    assert_eq!(
        moon_label(moon, 12_340_000_000),
        "Moon: First Quarter (50%), altitude 12.3° (up)"
    );
    assert_eq!(
        moon_label(MoonState { illuminated_ppm: 0, waxing: false }, 0),
        "Moon: New (0%), altitude 0.0° (down)"
    );
}

#[test]
fn controls_say_what_they_do() {
    assert_eq!(
        ClimateControl::SeasonalShift.help(),
        "Peak ITCZ latitude offset at solstice (scaled by sun declination). 12° is roughly realistic."
    );
    assert!(ClimateControl::Tau.help().ends_with("Real GCMs use 4-40 days."));
    assert_eq!(ClimateSwitch::Climate.help(), None);
    assert!(ClimateSwitch::Coriolis.help().unwrap().ends_with("Defaults on."));
    assert!(LayerControl::ClimateStrength.help().is_some());
    assert_eq!(LayerControl::Coverage.help(), None);
    assert_eq!(
        GodRayControl::ScatterRate.help(),
        "Per-metre air-scatter coefficient. Controls overall shaft brightness."
    );
    assert!(steps_help().starts_with("Raymarch sample count per pixel."));
    assert!(shadow_help().contains("~45 % darkening"));
}
