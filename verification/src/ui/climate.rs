//! The pages of the atmosphere panel on which clouds and climate are set.
//!
//! Values are in billionths.

use vstd::prelude::*;
use vstd::string::*;
use crate::blend::{clamp, clamped};
use crate::decimal::{push_signed, signed};
use crate::ui::slider::Slider;

verus! {

/// The seconds of an hour.
pub const HOUR: u64 = 3600;

/// How the climate shapes the clouds.
#[derive(Clone, Copy, Debug, PartialEq, Eq, Structural)]
pub struct ClimateSettings {
    pub enabled: bool,
    pub latitude_strength: i64,
    pub ocean_strength: i64,
    pub itcz_seasonal_shift_deg: i64,
    pub itcz_north_bias_deg: i64,
}

/// How the weather runs.
#[derive(Clone, Copy, Debug, PartialEq, Eq, Structural)]
pub struct SimSettings {
    pub enabled: bool,
    /// How long the weather takes back to the climate.
    pub tau_seconds: u64,
    pub wind_speed: i64,
    pub wind_meander: i64,
    pub coriolis: bool,
    pub dt_seconds: i64,
    pub vorticity_enabled: bool,
    pub vorticity_strength: i64,
    pub vorticity_forcing: i64,
    pub vorticity_damping_seconds: u64,
}

/// What the page of the climate sets.
#[derive(Clone, Copy, Debug, PartialEq, Eq, Structural)]
pub struct ClimatePanel {
    pub climate: ClimateSettings,
    pub sim: SimSettings,
}

/// The boxes to tick on the page of the climate.
#[derive(Clone, Copy, Debug, PartialEq, Eq, Structural)]
pub enum ClimateSwitch {
    Climate,
    Sim,
    Coriolis,
    Vorticity,
}

impl ClimateSwitch {
    /// The caption of the box.
    pub fn label(self) -> (caption: &'static str)
        ensures
            caption@ == match self {
                ClimateSwitch::Climate => "Enabled"@,
                ClimateSwitch::Sim => "Sim enabled"@,
                ClimateSwitch::Coriolis => "Coriolis"@,
                ClimateSwitch::Vorticity => "Vorticity-streamfunction enabled"@,
            },
    {
        match self {
            ClimateSwitch::Climate => "Enabled",
            ClimateSwitch::Sim => "Sim enabled",
            ClimateSwitch::Coriolis => "Coriolis",
            ClimateSwitch::Vorticity => "Vorticity-streamfunction enabled",
        }
    }
}

/// The sliders on the page of the climate.
#[derive(Clone, Copy, Debug, PartialEq, Eq, Structural)]
pub enum ClimateControl {
    LatitudeStrength,
    OceanStrength,
    SeasonalShift,
    NorthBias,
    Tau,
    WindSpeed,
    WindMeander,
    Step,
    VorticityStrength,
    VorticityForcing,
    VorticityDamping,
}

impl ClimateControl {
    /// The ends of the slider.
    pub open spec fn ends(self) -> (int, int) {
        match self {
            ClimateControl::LatitudeStrength => (0, 1_000_000_000),
            ClimateControl::OceanStrength => (0, 1_000_000_000),
            ClimateControl::SeasonalShift => (0, 20_000_000_000),
            ClimateControl::NorthBias => (-10_000_000_000, 15_000_000_000),
            ClimateControl::Tau => (1_000_000_000, 720_000_000_000),
            ClimateControl::WindSpeed => (0, 5_000_000_000),
            ClimateControl::WindMeander => (0, 1_000_000_000),
            ClimateControl::Step => (10_000_000_000, 300_000_000_000),
            ClimateControl::VorticityStrength => (0, 2_000_000),
            ClimateControl::VorticityForcing => (0, 1_000_000),
            ClimateControl::VorticityDamping => (1_000_000_000, 240_000_000_000),
        }
    }

    /// The slider.
    pub fn slider(self) -> (slider: Slider)
        ensures
            slider.low <= slider.high,
            match self {
                ClimateControl::LatitudeStrength => slider.is(
                    "latitude strength"@,
                    self.ends(),
                    false,
                    false,
                ),
                ClimateControl::OceanStrength => slider.is(
                    "ocean strength"@,
                    self.ends(),
                    false,
                    false,
                ),
                ClimateControl::SeasonalShift => slider.is(
                    "seasonal shift (°)"@,
                    self.ends(),
                    false,
                    false,
                ),
                ClimateControl::NorthBias => slider.is(
                    "north bias (°)"@,
                    self.ends(),
                    false,
                    false,
                ),
                ClimateControl::Tau => slider.is("τ (hours)"@, self.ends(), true, false),
                ClimateControl::WindSpeed => slider.is("wind speed ×"@, self.ends(), false, false),
                ClimateControl::WindMeander => slider.is(
                    "wind meander"@,
                    self.ends(),
                    false,
                    false,
                ),
                ClimateControl::Step => slider.is(
                    "dt (world seconds / step)"@,
                    self.ends(),
                    false,
                    false,
                ),
                ClimateControl::VorticityStrength => slider.is(
                    "vorticity strength"@,
                    self.ends(),
                    true,
                    false,
                ),
                ClimateControl::VorticityForcing => slider.is(
                    "vorticity forcing"@,
                    self.ends(),
                    true,
                    false,
                ),
                ClimateControl::VorticityDamping => slider.is(
                    "damping (hours)"@,
                    self.ends(),
                    true,
                    false,
                ),
            },
    {
        match self {
            ClimateControl::LatitudeStrength => Slider::linear(
                "latitude strength",
                0,
                1_000_000_000,
            ),
            ClimateControl::OceanStrength => Slider::linear("ocean strength", 0, 1_000_000_000),
            ClimateControl::SeasonalShift => Slider::linear(
                "seasonal shift (°)",
                0,
                20_000_000_000,
            ),
            ClimateControl::NorthBias => Slider::linear(
                "north bias (°)",
                -10_000_000_000,
                15_000_000_000,
            ),
            ClimateControl::Tau => Slider::log("τ (hours)", 1_000_000_000, 720_000_000_000),
            ClimateControl::WindSpeed => Slider::linear("wind speed ×", 0, 5_000_000_000),
            ClimateControl::WindMeander => Slider::linear("wind meander", 0, 1_000_000_000),
            ClimateControl::Step => Slider::linear(
                "dt (world seconds / step)",
                10_000_000_000,
                300_000_000_000,
            ),
            ClimateControl::VorticityStrength => Slider::log("vorticity strength", 0, 2_000_000),
            ClimateControl::VorticityForcing => Slider::log("vorticity forcing", 0, 1_000_000),
            ClimateControl::VorticityDamping => Slider::log(
                "damping (hours)",
                1_000_000_000,
                240_000_000_000,
            ),
        }
    }
}

impl ClimatePanel {
    /// What a slider sets.
    pub open spec fn stored(self, control: ClimateControl) -> int {
        match control {
            ClimateControl::LatitudeStrength => self.climate.latitude_strength as int,
            ClimateControl::OceanStrength => self.climate.ocean_strength as int,
            ClimateControl::SeasonalShift => self.climate.itcz_seasonal_shift_deg as int,
            ClimateControl::NorthBias => self.climate.itcz_north_bias_deg as int,
            ClimateControl::Tau => self.sim.tau_seconds as int,
            ClimateControl::WindSpeed => self.sim.wind_speed as int,
            ClimateControl::WindMeander => self.sim.wind_meander as int,
            ClimateControl::Step => self.sim.dt_seconds as int,
            ClimateControl::VorticityStrength => self.sim.vorticity_strength as int,
            ClimateControl::VorticityForcing => self.sim.vorticity_forcing as int,
            ClimateControl::VorticityDamping => self.sim.vorticity_damping_seconds as int,
        }
    }

    /// What a slider shows: two of the times in hours, everything else as it is.
    pub open spec fn value(self, control: ClimateControl) -> int {
        match control {
            ClimateControl::Tau => self.stored(control) / (HOUR as int),
            ClimateControl::VorticityDamping => self.stored(control) / (HOUR as int),
            _ => self.stored(control),
        }
    }

    /// Whether a slider can be moved: the climate and the weather each have a switch, and so has
    /// the vorticity within the weather.
    pub open spec fn movable(self, control: ClimateControl) -> bool {
        match control {
            ClimateControl::LatitudeStrength => self.climate.enabled,
            ClimateControl::OceanStrength => self.climate.enabled,
            ClimateControl::SeasonalShift => self.climate.enabled,
            ClimateControl::NorthBias => self.climate.enabled,
            ClimateControl::VorticityStrength => self.sim.enabled && self.sim.vorticity_enabled,
            ClimateControl::VorticityForcing => self.sim.enabled && self.sim.vorticity_enabled,
            ClimateControl::VorticityDamping => self.sim.enabled && self.sim.vorticity_enabled,
            _ => self.sim.enabled,
        }
    }

    /// Whether a box is ticked.
    pub open spec fn ticked(self, switch: ClimateSwitch) -> bool {
        match switch {
            ClimateSwitch::Climate => self.climate.enabled,
            ClimateSwitch::Sim => self.sim.enabled,
            ClimateSwitch::Coriolis => self.sim.coriolis,
            ClimateSwitch::Vorticity => self.sim.vorticity_enabled,
        }
    }

    /// Whether a box can be ticked.
    pub open spec fn tickable(self, switch: ClimateSwitch) -> bool {
        match switch {
            ClimateSwitch::Climate => true,
            ClimateSwitch::Sim => true,
            ClimateSwitch::Coriolis => self.sim.enabled,
            ClimateSwitch::Vorticity => self.sim.enabled,
        }
    }

    /// Whether a slider can be moved.
    pub fn is_movable(&self, control: ClimateControl) -> (movable: bool)
        ensures
            movable == self.movable(control),
    {
        match control {
            ClimateControl::LatitudeStrength => self.climate.enabled,
            ClimateControl::OceanStrength => self.climate.enabled,
            ClimateControl::SeasonalShift => self.climate.enabled,
            ClimateControl::NorthBias => self.climate.enabled,
            ClimateControl::VorticityStrength => self.sim.enabled && self.sim.vorticity_enabled,
            ClimateControl::VorticityForcing => self.sim.enabled && self.sim.vorticity_enabled,
            ClimateControl::VorticityDamping => self.sim.enabled && self.sim.vorticity_enabled,
            _ => self.sim.enabled,
        }
    }

    /// What a slider shows.
    pub fn shown(&self, control: ClimateControl) -> (value: i64)
        ensures
            value == self.value(control),
    {
        match control {
            ClimateControl::LatitudeStrength => self.climate.latitude_strength,
            ClimateControl::OceanStrength => self.climate.ocean_strength,
            ClimateControl::SeasonalShift => self.climate.itcz_seasonal_shift_deg,
            ClimateControl::NorthBias => self.climate.itcz_north_bias_deg,
            ClimateControl::Tau => (self.sim.tau_seconds / HOUR) as i64,
            ClimateControl::WindSpeed => self.sim.wind_speed,
            ClimateControl::WindMeander => self.sim.wind_meander,
            ClimateControl::Step => self.sim.dt_seconds,
            ClimateControl::VorticityStrength => self.sim.vorticity_strength,
            ClimateControl::VorticityForcing => self.sim.vorticity_forcing,
            ClimateControl::VorticityDamping => (self.sim.vorticity_damping_seconds / HOUR) as i64,
        }
    }

    /// Moves a slider. The value is held between the slider's ends, and the slider then shows it;
    /// nothing else changes, and nothing at all if the slider cannot be moved.
    pub fn move_slider(&mut self, control: ClimateControl, value: i64)
        ensures
            !old(self).movable(control) ==> *final(self) == *old(self),
            old(self).movable(control) ==> final(self).value(control) == clamped(
                value as int,
                control.ends().0,
                control.ends().1,
            ),
            old(self).movable(control) ==> final(self).stored(control) == final(self).value(control)
                * match control {
                ClimateControl::Tau => HOUR as int,
                ClimateControl::VorticityDamping => HOUR as int,
                _ => 1,
            },
            forall|other: ClimateControl|
                other != control ==> final(self).stored(other) == #[trigger] old(self).stored(
                    other,
                ),
            forall|switch: ClimateSwitch|
                final(self).ticked(switch) == #[trigger] old(self).ticked(switch),
    {
        if !self.is_movable(control) {
            return;
        }
        let slider = control.slider();
        let held: i64 = clamp(value, slider.low, slider.high);
        match control {
            ClimateControl::LatitudeStrength => {
                self.climate.latitude_strength = held;
            },
            ClimateControl::OceanStrength => {
                self.climate.ocean_strength = held;
            },
            ClimateControl::SeasonalShift => {
                self.climate.itcz_seasonal_shift_deg = held;
            },
            ClimateControl::NorthBias => {
                self.climate.itcz_north_bias_deg = held;
            },
            ClimateControl::Tau => {
                self.sim.tau_seconds = held as u64 * HOUR;
            },
            ClimateControl::WindSpeed => {
                self.sim.wind_speed = held;
            },
            ClimateControl::WindMeander => {
                self.sim.wind_meander = held;
            },
            ClimateControl::Step => {
                self.sim.dt_seconds = held;
            },
            ClimateControl::VorticityStrength => {
                self.sim.vorticity_strength = held;
            },
            ClimateControl::VorticityForcing => {
                self.sim.vorticity_forcing = held;
            },
            ClimateControl::VorticityDamping => {
                self.sim.vorticity_damping_seconds = held as u64 * HOUR;
            },
        }
    }

    /// Ticks a box, or takes the tick away; a box that cannot be ticked stays as it is.
    pub fn tick(&mut self, switch: ClimateSwitch)
        ensures
            final(self).ticked(switch) == (old(self).ticked(switch) != old(self).tickable(switch)),
            forall|other: ClimateSwitch|
                other != switch ==> final(self).ticked(other) == #[trigger] old(self).ticked(
                    other,
                ),
            forall|control: ClimateControl|
                final(self).stored(control) == #[trigger] old(self).stored(control),
    {
        match switch {
            ClimateSwitch::Climate => {
                self.climate.enabled = !self.climate.enabled;
            },
            ClimateSwitch::Sim => {
                self.sim.enabled = !self.sim.enabled;
            },
            ClimateSwitch::Coriolis => {
                if self.sim.enabled {
                    self.sim.coriolis = !self.sim.coriolis;
                }
            },
            ClimateSwitch::Vorticity => {
                if self.sim.enabled {
                    self.sim.vorticity_enabled = !self.sim.vorticity_enabled;
                }
            },
        }
    }
}

/// The images on the page of the climate.
#[derive(Clone, Copy, Debug, PartialEq, Eq, Structural)]
pub enum ClimateImage {
    /// What the climate asks for.
    ClimateMap,
    /// The weather as it is.
    SimState,
    Topography,
}

impl ClimateImage {
    /// What stands above the image.
    pub fn label(self) -> (caption: &'static str)
        ensures
            caption@ == match self {
                ClimateImage::ClimateMap => "Climate forcing (static bake):"@,
                ClimateImage::SimState => "Sim state (live, what the runtime samples when sim is on):"@,
                ClimateImage::Topography => "Topography (sea-level reference for ocean bonus):"@,
            },
    {
        match self {
            ClimateImage::ClimateMap => "Climate forcing (static bake):",
            ClimateImage::SimState => "Sim state (live, what the runtime samples when sim is on):",
            ClimateImage::Topography => "Topography (sea-level reference for ocean bonus):",
        }
    }

    /// What stands there while the image is missing.
    pub fn notice(self) -> (caption: &'static str)
        ensures
            caption@ == match self {
                ClimateImage::ClimateMap => "(climate map bake target not yet allocated…)"@,
                ClimateImage::SimState => "(sim state preview not yet allocated…)"@,
                ClimateImage::Topography => "(topography asset still loading…)"@,
            },
    {
        match self {
            ClimateImage::ClimateMap => "(climate map bake target not yet allocated…)",
            ClimateImage::SimState => "(sim state preview not yet allocated…)",
            ClimateImage::Topography => "(topography asset still loading…)",
        }
    }
}

/// The widest that an image is shown.
pub const WIDEST_IMAGE: u64 = 512_000_000_000;

/// The width and the height of an image: as wide as there is room, up to a limit, and half as
/// high.
pub fn image_size(room: u64) -> (size: (u64, u64))
    ensures
        size.0 == if room < WIDEST_IMAGE {
            room
        } else {
            WIDEST_IMAGE
        },
        size.1 == size.0 / 2,
{
    let width: u64 = if room < WIDEST_IMAGE {
        room
    } else {
        WIDEST_IMAGE
    };
    (width, width / 2)
}

/// A layer of clouds.
#[derive(Clone, Copy, Debug, PartialEq, Eq, Structural)]
pub struct LayerSettings {
    pub enabled: bool,
    pub inner_altitude: i64,
    pub outer_altitude: i64,
    pub coverage: i64,
    pub density_scale: i64,
    pub noise_tile: i64,
    pub weather_tile: i64,
    pub weather_strength: i64,
    pub climate_strength: i64,
    pub wind_east: i64,
    pub wind_north: i64,
    pub evolution_rate: i64,
    pub hg_forward: i64,
    pub hg_backward: i64,
    pub hg_blend: i64,
}

/// The sliders of a layer of clouds.
#[derive(Clone, Copy, Debug, PartialEq, Eq, Structural)]
pub enum LayerControl {
    InnerAltitude,
    OuterAltitude,
    Coverage,
    DensityScale,
    NoiseTile,
    WeatherTile,
    WeatherStrength,
    ClimateStrength,
    WindEast,
    WindNorth,
    EvolutionRate,
    ForwardPhase,
    BackwardPhase,
    PhaseBlend,
}

impl LayerControl {
    /// The ends of the slider.
    pub open spec fn ends(self) -> (int, int) {
        match self {
            LayerControl::InnerAltitude => (0, 15_000_000_000_000),
            LayerControl::OuterAltitude => (0, 15_000_000_000_000),
            LayerControl::Coverage => (0, 1_000_000_000),
            LayerControl::DensityScale => (100_000, 20_000_000),
            LayerControl::NoiseTile => (200_000_000_000, 20_000_000_000_000),
            LayerControl::WeatherTile => (0, 500_000_000_000_000),
            LayerControl::WeatherStrength => (0, 1_000_000_000),
            LayerControl::ClimateStrength => (0, 1_000_000_000),
            LayerControl::WindEast => (-50_000_000_000, 50_000_000_000),
            LayerControl::WindNorth => (-50_000_000_000, 50_000_000_000),
            LayerControl::EvolutionRate => (0, 50_000_000),
            LayerControl::ForwardPhase => (0, 990_000_000),
            LayerControl::BackwardPhase => (-990_000_000, 0),
            LayerControl::PhaseBlend => (0, 1_000_000_000),
        }
    }

    /// The slider.
    pub fn slider(self) -> (slider: Slider)
        ensures
            slider.low <= slider.high,
            match self {
                LayerControl::InnerAltitude => slider.is(
                    "inner altitude (m)"@,
                    self.ends(),
                    false,
                    true,
                ),
                LayerControl::OuterAltitude => slider.is(
                    "outer altitude (m)"@,
                    self.ends(),
                    false,
                    true,
                ),
                LayerControl::Coverage => slider.is("coverage"@, self.ends(), false, false),
                LayerControl::DensityScale => slider.is(
                    "density scale (1/m)"@,
                    self.ends(),
                    true,
                    false,
                ),
                LayerControl::NoiseTile => slider.is("noise tile (m)"@, self.ends(), true, true),
                LayerControl::WeatherTile => slider.is(
                    "weather tile (m)"@,
                    self.ends(),
                    true,
                    true,
                ),
                LayerControl::WeatherStrength => slider.is(
                    "weather strength"@,
                    self.ends(),
                    false,
                    false,
                ),
                LayerControl::ClimateStrength => slider.is(
                    "climate strength"@,
                    self.ends(),
                    false,
                    false,
                ),
                LayerControl::WindEast => slider.is("wind east (m/s)"@, self.ends(), false, false),
                LayerControl::WindNorth => slider.is(
                    "wind north (m/s)"@,
                    self.ends(),
                    false,
                    false,
                ),
                LayerControl::EvolutionRate => slider.is(
                    "evolution rate"@,
                    self.ends(),
                    false,
                    false,
                ),
                LayerControl::ForwardPhase => slider.is("g forward"@, self.ends(), false, false),
                LayerControl::BackwardPhase => slider.is("g backward"@, self.ends(), false, false),
                LayerControl::PhaseBlend => slider.is("blend"@, self.ends(), false, false),
            },
    {
        match self {
            LayerControl::InnerAltitude => Slider::whole(
                "inner altitude (m)",
                0,
                15_000_000_000_000,
                false,
            ),
            LayerControl::OuterAltitude => Slider::whole(
                "outer altitude (m)",
                0,
                15_000_000_000_000,
                false,
            ),
            LayerControl::Coverage => Slider::linear("coverage", 0, 1_000_000_000),
            LayerControl::DensityScale => Slider::log("density scale (1/m)", 100_000, 20_000_000),
            LayerControl::NoiseTile => Slider::whole(
                "noise tile (m)",
                200_000_000_000,
                20_000_000_000_000,
                true,
            ),
            LayerControl::WeatherTile => Slider::whole(
                "weather tile (m)",
                0,
                500_000_000_000_000,
                true,
            ),
            LayerControl::WeatherStrength => Slider::linear("weather strength", 0, 1_000_000_000),
            LayerControl::ClimateStrength => Slider::linear("climate strength", 0, 1_000_000_000),
            LayerControl::WindEast => Slider::linear(
                "wind east (m/s)",
                -50_000_000_000,
                50_000_000_000,
            ),
            LayerControl::WindNorth => Slider::linear(
                "wind north (m/s)",
                -50_000_000_000,
                50_000_000_000,
            ),
            LayerControl::EvolutionRate => Slider::linear("evolution rate", 0, 50_000_000),
            LayerControl::ForwardPhase => Slider::linear("g forward", 0, 990_000_000),
            LayerControl::BackwardPhase => Slider::linear("g backward", -990_000_000, 0),
            LayerControl::PhaseBlend => Slider::linear("blend", 0, 1_000_000_000),
        }
    }
}

impl LayerSettings {
    /// What a slider sets and shows.
    pub open spec fn value(self, control: LayerControl) -> int {
        match control {
            LayerControl::InnerAltitude => self.inner_altitude as int,
            LayerControl::OuterAltitude => self.outer_altitude as int,
            LayerControl::Coverage => self.coverage as int,
            LayerControl::DensityScale => self.density_scale as int,
            LayerControl::NoiseTile => self.noise_tile as int,
            LayerControl::WeatherTile => self.weather_tile as int,
            LayerControl::WeatherStrength => self.weather_strength as int,
            LayerControl::ClimateStrength => self.climate_strength as int,
            LayerControl::WindEast => self.wind_east as int,
            LayerControl::WindNorth => self.wind_north as int,
            LayerControl::EvolutionRate => self.evolution_rate as int,
            LayerControl::ForwardPhase => self.hg_forward as int,
            LayerControl::BackwardPhase => self.hg_backward as int,
            LayerControl::PhaseBlend => self.hg_blend as int,
        }
    }

    /// What a slider shows.
    pub fn shown(&self, control: LayerControl) -> (value: i64)
        ensures
            value == self.value(control),
    {
        match control {
            LayerControl::InnerAltitude => self.inner_altitude,
            LayerControl::OuterAltitude => self.outer_altitude,
            LayerControl::Coverage => self.coverage,
            LayerControl::DensityScale => self.density_scale,
            LayerControl::NoiseTile => self.noise_tile,
            LayerControl::WeatherTile => self.weather_tile,
            LayerControl::WeatherStrength => self.weather_strength,
            LayerControl::ClimateStrength => self.climate_strength,
            LayerControl::WindEast => self.wind_east,
            LayerControl::WindNorth => self.wind_north,
            LayerControl::EvolutionRate => self.evolution_rate,
            LayerControl::ForwardPhase => self.hg_forward,
            LayerControl::BackwardPhase => self.hg_backward,
            LayerControl::PhaseBlend => self.hg_blend,
        }
    }

    /// Moves a slider: the value is held between its ends, and nothing else changes.
    pub fn move_slider(&mut self, control: LayerControl, value: i64)
        ensures
            final(self).value(control) == clamped(
                value as int,
                control.ends().0,
                control.ends().1,
            ),
            forall|other: LayerControl|
                other != control ==> final(self).value(other) == #[trigger] old(self).value(other),
            final(self).enabled == old(self).enabled,
    {
        let slider = control.slider();
        let held: i64 = clamp(value, slider.low, slider.high);
        match control {
            LayerControl::InnerAltitude => {
                self.inner_altitude = held;
            },
            LayerControl::OuterAltitude => {
                self.outer_altitude = held;
            },
            LayerControl::Coverage => {
                self.coverage = held;
            },
            LayerControl::DensityScale => {
                self.density_scale = held;
            },
            LayerControl::NoiseTile => {
                self.noise_tile = held;
            },
            LayerControl::WeatherTile => {
                self.weather_tile = held;
            },
            LayerControl::WeatherStrength => {
                self.weather_strength = held;
            },
            LayerControl::ClimateStrength => {
                self.climate_strength = held;
            },
            LayerControl::WindEast => {
                self.wind_east = held;
            },
            LayerControl::WindNorth => {
                self.wind_north = held;
            },
            LayerControl::EvolutionRate => {
                self.evolution_rate = held;
            },
            LayerControl::ForwardPhase => {
                self.hg_forward = held;
            },
            LayerControl::BackwardPhase => {
                self.hg_backward = held;
            },
            LayerControl::PhaseBlend => {
                self.hg_blend = held;
            },
        }
    }
}

/// The heading of a layer, and whether the page opens with the layer unfolded: the first one.
pub fn layer_heading(index: u32, kind: &str) -> (heading: (String, bool))
    ensures
        heading.0@ == "Layer "@ + signed(index as int) + ": "@ + kind@,
        heading.1 == (index == 0),
{
    let mut text = "Layer ".to_owned();
    push_signed(&mut text, index as i64);
    text.append(": ");
    text.append(kind);
    (text, index == 0)
}

/// The shafts of light between clouds.
#[derive(Clone, Copy, Debug, PartialEq, Eq, Structural)]
pub struct GodRaySettings {
    pub enabled: bool,
    /// The steps of a ray.
    pub num_steps: u32,
    pub max_distance: i64,
    pub scatter_rate: i64,
    pub atmo_scale_height: i64,
    pub hg_g: i64,
}

/// The sliders on the page of the shafts of light.
#[derive(Clone, Copy, Debug, PartialEq, Eq, Structural)]
pub enum GodRayControl {
    MaxDistance,
    ScatterRate,
    ScaleHeight,
    PhaseG,
}

impl GodRayControl {
    /// The ends of the slider.
    pub open spec fn ends(self) -> (int, int) {
        match self {
            GodRayControl::MaxDistance => (10_000_000_000_000, 400_000_000_000_000),
            GodRayControl::ScatterRate => (1000, 200_000),
            GodRayControl::ScaleHeight => (1_000_000_000_000, 20_000_000_000_000),
            GodRayControl::PhaseG => (0, 950_000_000),
        }
    }

    /// The slider.
    pub fn slider(self) -> (slider: Slider)
        ensures
            slider.low <= slider.high,
            match self {
                GodRayControl::MaxDistance => slider.is(
                    "max distance (m)"@,
                    self.ends(),
                    true,
                    true,
                ),
                GodRayControl::ScatterRate => slider.is(
                    "scatter rate (1/m)"@,
                    self.ends(),
                    true,
                    false,
                ),
                GodRayControl::ScaleHeight => slider.is(
                    "scale height (m)"@,
                    self.ends(),
                    false,
                    true,
                ),
                GodRayControl::PhaseG => slider.is("phase g"@, self.ends(), false, false),
            },
    {
        match self {
            GodRayControl::MaxDistance => Slider::whole(
                "max distance (m)",
                10_000_000_000_000,
                400_000_000_000_000,
                true,
            ),
            GodRayControl::ScatterRate => Slider::log("scatter rate (1/m)", 1000, 200_000),
            GodRayControl::ScaleHeight => Slider::whole(
                "scale height (m)",
                1_000_000_000_000,
                20_000_000_000_000,
                false,
            ),
            GodRayControl::PhaseG => Slider::linear("phase g", 0, 950_000_000),
        }
    }
}

impl GodRaySettings {
    /// What a slider sets and shows.
    pub open spec fn value(self, control: GodRayControl) -> int {
        match control {
            GodRayControl::MaxDistance => self.max_distance as int,
            GodRayControl::ScatterRate => self.scatter_rate as int,
            GodRayControl::ScaleHeight => self.atmo_scale_height as int,
            GodRayControl::PhaseG => self.hg_g as int,
        }
    }

    /// What a slider shows.
    pub fn shown(&self, control: GodRayControl) -> (value: i64)
        ensures
            value == self.value(control),
    {
        match control {
            GodRayControl::MaxDistance => self.max_distance,
            GodRayControl::ScatterRate => self.scatter_rate,
            GodRayControl::ScaleHeight => self.atmo_scale_height,
            GodRayControl::PhaseG => self.hg_g,
        }
    }

    /// Moves a slider: the value is held between its ends, and nothing else changes; nothing at
    /// all while the shafts are switched off.
    pub fn move_slider(&mut self, control: GodRayControl, value: i64)
        ensures
            final(self).value(control) == if old(self).enabled {
                clamped(value as int, control.ends().0, control.ends().1)
            } else {
                old(self).value(control)
            },
            forall|other: GodRayControl|
                other != control ==> final(self).value(other) == #[trigger] old(self).value(other),
            final(self).enabled == old(self).enabled,
            final(self).num_steps == old(self).num_steps,
    {
        if !self.enabled {
            return;
        }
        let slider = control.slider();
        let held: i64 = clamp(value, slider.low, slider.high);
        match control {
            GodRayControl::MaxDistance => {
                self.max_distance = held;
            },
            GodRayControl::ScatterRate => {
                self.scatter_rate = held;
            },
            GodRayControl::ScaleHeight => {
                self.atmo_scale_height = held;
            },
            GodRayControl::PhaseG => {
                self.hg_g = held;
            },
        }
    }

    /// Moves the slider for the steps, which runs from four to sixty-four.
    pub fn move_steps(&mut self, steps: i32)
        ensures
            *final(self) == (GodRaySettings {
                num_steps: if old(self).enabled {
                    clamped(steps as int, 4, 64) as u32
                } else {
                    old(self).num_steps
                },
                ..*old(self)
            }),
    {
        if self.enabled {
            self.num_steps = clamp(steps as i64, 4, 64) as u32;
        }
    }
}

/// The slider for the strength of the shadows of clouds.
pub fn shadow_slider() -> (slider: Slider)
    ensures
        slider.is("shadow intensity"@, (0, 5_000_000_000), false, false),
{
    Slider::linear("shadow intensity", 0, 5_000_000_000)
}

/// Moving a slider of the climate sets what its caption names, held between the ends of the slider,
/// and nothing else; two of the times are set in hours. Then the slider shows what was set. A slider
/// that cannot be moved sets nothing.
pub proof fn lemma_climate_sliders_set_what_they_name(
    panel: &mut ClimatePanel,
    control: ClimateControl,
    value: i64,
    slider: Slider,
    movable: bool,
    shown: i64,
)
    requires
        call_ensures(ClimatePanel::move_slider, (panel, control, value), ()),
        call_ensures(ClimateControl::slider, (control,), slider),
        call_ensures(ClimatePanel::is_movable, (&*old(panel), control), movable),
        call_ensures(ClimatePanel::shown, (&*final(panel), control), shown),
    ensures
        !movable ==> *final(panel) == *old(panel),
        movable ==> {
            let before = *old(panel);
            let after = *final(panel);
            let held = shown;
            &&& slider.low <= held <= slider.high
            &&& slider.low <= value <= slider.high ==> held == value
            &&& value < slider.low ==> held == slider.low
            &&& value > slider.high ==> held == slider.high
            &&& control is LatitudeStrength ==> after.climate.latitude_strength == held
            &&& !(control is LatitudeStrength) ==> after.climate.latitude_strength == before.climate.latitude_strength
            &&& control is OceanStrength ==> after.climate.ocean_strength == held
            &&& !(control is OceanStrength) ==> after.climate.ocean_strength == before.climate.ocean_strength
            &&& control is SeasonalShift ==> after.climate.itcz_seasonal_shift_deg == held
            &&& !(control is SeasonalShift) ==> after.climate.itcz_seasonal_shift_deg == before.climate.itcz_seasonal_shift_deg
            &&& control is NorthBias ==> after.climate.itcz_north_bias_deg == held
            &&& !(control is NorthBias) ==> after.climate.itcz_north_bias_deg == before.climate.itcz_north_bias_deg
            &&& control is Tau ==> after.sim.tau_seconds == held * 3_600
            &&& !(control is Tau) ==> after.sim.tau_seconds == before.sim.tau_seconds
            &&& control is WindSpeed ==> after.sim.wind_speed == held
            &&& !(control is WindSpeed) ==> after.sim.wind_speed == before.sim.wind_speed
            &&& control is WindMeander ==> after.sim.wind_meander == held
            &&& !(control is WindMeander) ==> after.sim.wind_meander == before.sim.wind_meander
            &&& control is Step ==> after.sim.dt_seconds == held
            &&& !(control is Step) ==> after.sim.dt_seconds == before.sim.dt_seconds
            &&& control is VorticityStrength ==> after.sim.vorticity_strength == held
            &&& !(control is VorticityStrength) ==> after.sim.vorticity_strength == before.sim.vorticity_strength
            &&& control is VorticityForcing ==> after.sim.vorticity_forcing == held
            &&& !(control is VorticityForcing) ==> after.sim.vorticity_forcing == before.sim.vorticity_forcing
            &&& control is VorticityDamping ==> after.sim.vorticity_damping_seconds == held * 3_600
            &&& !(control is VorticityDamping) ==> after.sim.vorticity_damping_seconds == before.sim.vorticity_damping_seconds
            &&& after.climate.enabled == before.climate.enabled
            &&& after.sim.enabled == before.sim.enabled
            &&& after.sim.coriolis == before.sim.coriolis
            &&& after.sim.vorticity_enabled == before.sim.vorticity_enabled
        },
{
    let before = *old(panel);
    let after = *final(panel);
    assert(control != ClimateControl::LatitudeStrength ==> after.stored(ClimateControl::LatitudeStrength) == before.stored(
        ClimateControl::LatitudeStrength,
    ));
    assert(control != ClimateControl::OceanStrength ==> after.stored(ClimateControl::OceanStrength) == before.stored(
        ClimateControl::OceanStrength,
    ));
    assert(control != ClimateControl::SeasonalShift ==> after.stored(ClimateControl::SeasonalShift) == before.stored(
        ClimateControl::SeasonalShift,
    ));
    assert(control != ClimateControl::NorthBias ==> after.stored(ClimateControl::NorthBias) == before.stored(
        ClimateControl::NorthBias,
    ));
    assert(control != ClimateControl::Tau ==> after.stored(ClimateControl::Tau) == before.stored(
        ClimateControl::Tau,
    ));
    assert(control != ClimateControl::WindSpeed ==> after.stored(ClimateControl::WindSpeed) == before.stored(
        ClimateControl::WindSpeed,
    ));
    assert(control != ClimateControl::WindMeander ==> after.stored(ClimateControl::WindMeander) == before.stored(
        ClimateControl::WindMeander,
    ));
    assert(control != ClimateControl::Step ==> after.stored(ClimateControl::Step) == before.stored(
        ClimateControl::Step,
    ));
    assert(control != ClimateControl::VorticityStrength ==> after.stored(ClimateControl::VorticityStrength) == before.stored(
        ClimateControl::VorticityStrength,
    ));
    assert(control != ClimateControl::VorticityForcing ==> after.stored(ClimateControl::VorticityForcing) == before.stored(
        ClimateControl::VorticityForcing,
    ));
    assert(control != ClimateControl::VorticityDamping ==> after.stored(ClimateControl::VorticityDamping) == before.stored(
        ClimateControl::VorticityDamping,
    ));
    assert(after.ticked(ClimateSwitch::Climate) == before.ticked(ClimateSwitch::Climate));
    assert(after.ticked(ClimateSwitch::Sim) == before.ticked(ClimateSwitch::Sim));
    assert(after.ticked(ClimateSwitch::Coriolis) == before.ticked(ClimateSwitch::Coriolis));
    assert(after.ticked(ClimateSwitch::Vorticity) == before.ticked(ClimateSwitch::Vorticity));
}

/// The sliders of the climate can be moved while the climate counts, those of the weather while the
/// weather runs, and those of the vorticity while both the weather and the vorticity do.
pub proof fn lemma_sliders_need_their_switch(
    panel: ClimatePanel,
    control: ClimateControl,
    movable: bool,
)
    requires
        call_ensures(ClimatePanel::is_movable, (&panel, control), movable),
    ensures
        ({
            let climate = control is LatitudeStrength || control is OceanStrength || control
                is SeasonalShift || control is NorthBias;
            let vorticity = control is VorticityStrength || control is VorticityForcing || control
                is VorticityDamping;
            &&& climate ==> (movable <==> panel.climate.enabled)
            &&& vorticity ==> (movable <==> panel.sim.enabled && panel.sim.vorticity_enabled)
            &&& !climate && !vorticity ==> (movable <==> panel.sim.enabled)
        }),
{
}

/// A tick turns its own switch over, and no other; within the weather only while the weather runs.
pub proof fn lemma_ticks_turn_their_switch(panel: &mut ClimatePanel, switch: ClimateSwitch)
    requires
        call_ensures(ClimatePanel::tick, (panel, switch), ()),
    ensures
        ({
            let before = *old(panel);
            let after = *final(panel);
            &&& switch is Climate <==> after.climate.enabled != before.climate.enabled
            &&& switch is Sim <==> after.sim.enabled != before.sim.enabled
            &&& switch is Coriolis && before.sim.enabled <==> after.sim.coriolis
                != before.sim.coriolis
            &&& switch is Vorticity && before.sim.enabled <==> after.sim.vorticity_enabled
                != before.sim.vorticity_enabled
        }),
{
    let before = *old(panel);
    let after = *final(panel);
    assert(switch != ClimateSwitch::Climate ==> after.ticked(ClimateSwitch::Climate) == before.ticked(
        ClimateSwitch::Climate,
    ));
    assert(switch != ClimateSwitch::Sim ==> after.ticked(ClimateSwitch::Sim) == before.ticked(
        ClimateSwitch::Sim,
    ));
    assert(switch != ClimateSwitch::Coriolis ==> after.ticked(ClimateSwitch::Coriolis) == before.ticked(
        ClimateSwitch::Coriolis,
    ));
    assert(switch != ClimateSwitch::Vorticity ==> after.ticked(ClimateSwitch::Vorticity) == before.ticked(
        ClimateSwitch::Vorticity,
    ));
}

/// Moving a slider of a layer sets what its caption names, held between the ends of the slider, and
/// nothing else.
pub proof fn lemma_layer_sliders_set_what_they_name(
    layer: &mut LayerSettings,
    control: LayerControl,
    value: i64,
    slider: Slider,
    shown: i64,
)
    requires
        call_ensures(LayerSettings::move_slider, (layer, control, value), ()),
        call_ensures(LayerControl::slider, (control,), slider),
        call_ensures(LayerSettings::shown, (&*final(layer), control), shown),
    ensures
        ({
            let before = *old(layer);
            let after = *final(layer);
            let held = shown;
            &&& slider.low <= held <= slider.high
            &&& slider.low <= value <= slider.high ==> held == value
            &&& value < slider.low ==> held == slider.low
            &&& value > slider.high ==> held == slider.high
            &&& control is InnerAltitude ==> after.inner_altitude == held
            &&& !(control is InnerAltitude) ==> after.inner_altitude == before.inner_altitude
            &&& control is OuterAltitude ==> after.outer_altitude == held
            &&& !(control is OuterAltitude) ==> after.outer_altitude == before.outer_altitude
            &&& control is Coverage ==> after.coverage == held
            &&& !(control is Coverage) ==> after.coverage == before.coverage
            &&& control is DensityScale ==> after.density_scale == held
            &&& !(control is DensityScale) ==> after.density_scale == before.density_scale
            &&& control is NoiseTile ==> after.noise_tile == held
            &&& !(control is NoiseTile) ==> after.noise_tile == before.noise_tile
            &&& control is WeatherTile ==> after.weather_tile == held
            &&& !(control is WeatherTile) ==> after.weather_tile == before.weather_tile
            &&& control is WeatherStrength ==> after.weather_strength == held
            &&& !(control is WeatherStrength) ==> after.weather_strength == before.weather_strength
            &&& control is ClimateStrength ==> after.climate_strength == held
            &&& !(control is ClimateStrength) ==> after.climate_strength == before.climate_strength
            &&& control is WindEast ==> after.wind_east == held
            &&& !(control is WindEast) ==> after.wind_east == before.wind_east
            &&& control is WindNorth ==> after.wind_north == held
            &&& !(control is WindNorth) ==> after.wind_north == before.wind_north
            &&& control is EvolutionRate ==> after.evolution_rate == held
            &&& !(control is EvolutionRate) ==> after.evolution_rate == before.evolution_rate
            &&& control is ForwardPhase ==> after.hg_forward == held
            &&& !(control is ForwardPhase) ==> after.hg_forward == before.hg_forward
            &&& control is BackwardPhase ==> after.hg_backward == held
            &&& !(control is BackwardPhase) ==> after.hg_backward == before.hg_backward
            &&& control is PhaseBlend ==> after.hg_blend == held
            &&& !(control is PhaseBlend) ==> after.hg_blend == before.hg_blend
            &&& after.enabled == before.enabled
        }),
{
    let before = *old(layer);
    let after = *final(layer);
    assert(control != LayerControl::InnerAltitude ==> after.value(LayerControl::InnerAltitude) == before.value(
        LayerControl::InnerAltitude,
    ));
    assert(control != LayerControl::OuterAltitude ==> after.value(LayerControl::OuterAltitude) == before.value(
        LayerControl::OuterAltitude,
    ));
    assert(control != LayerControl::Coverage ==> after.value(LayerControl::Coverage) == before.value(
        LayerControl::Coverage,
    ));
    assert(control != LayerControl::DensityScale ==> after.value(LayerControl::DensityScale) == before.value(
        LayerControl::DensityScale,
    ));
    assert(control != LayerControl::NoiseTile ==> after.value(LayerControl::NoiseTile) == before.value(
        LayerControl::NoiseTile,
    ));
    assert(control != LayerControl::WeatherTile ==> after.value(LayerControl::WeatherTile) == before.value(
        LayerControl::WeatherTile,
    ));
    assert(control != LayerControl::WeatherStrength ==> after.value(LayerControl::WeatherStrength) == before.value(
        LayerControl::WeatherStrength,
    ));
    assert(control != LayerControl::ClimateStrength ==> after.value(LayerControl::ClimateStrength) == before.value(
        LayerControl::ClimateStrength,
    ));
    assert(control != LayerControl::WindEast ==> after.value(LayerControl::WindEast) == before.value(
        LayerControl::WindEast,
    ));
    assert(control != LayerControl::WindNorth ==> after.value(LayerControl::WindNorth) == before.value(
        LayerControl::WindNorth,
    ));
    assert(control != LayerControl::EvolutionRate ==> after.value(LayerControl::EvolutionRate) == before.value(
        LayerControl::EvolutionRate,
    ));
    assert(control != LayerControl::ForwardPhase ==> after.value(LayerControl::ForwardPhase) == before.value(
        LayerControl::ForwardPhase,
    ));
    assert(control != LayerControl::BackwardPhase ==> after.value(LayerControl::BackwardPhase) == before.value(
        LayerControl::BackwardPhase,
    ));
    assert(control != LayerControl::PhaseBlend ==> after.value(LayerControl::PhaseBlend) == before.value(
        LayerControl::PhaseBlend,
    ));
}

/// The same of the shafts of light, while they are switched on; while they are off nothing changes.
pub proof fn lemma_shaft_sliders_set_what_they_name(
    rays: &mut GodRaySettings,
    control: GodRayControl,
    value: i64,
    slider: Slider,
    shown: i64,
)
    requires
        call_ensures(GodRaySettings::move_slider, (rays, control, value), ()),
        call_ensures(GodRayControl::slider, (control,), slider),
        call_ensures(GodRaySettings::shown, (&*final(rays), control), shown),
    ensures
        !old(rays).enabled ==> *final(rays) == *old(rays),
        old(rays).enabled ==> {
            let before = *old(rays);
            let after = *final(rays);
            let held = shown;
            &&& slider.low <= held <= slider.high
            &&& slider.low <= value <= slider.high ==> held == value
            &&& value < slider.low ==> held == slider.low
            &&& value > slider.high ==> held == slider.high
            &&& control is MaxDistance ==> after.max_distance == held
            &&& !(control is MaxDistance) ==> after.max_distance == before.max_distance
            &&& control is ScatterRate ==> after.scatter_rate == held
            &&& !(control is ScatterRate) ==> after.scatter_rate == before.scatter_rate
            &&& control is ScaleHeight ==> after.atmo_scale_height == held
            &&& !(control is ScaleHeight) ==> after.atmo_scale_height == before.atmo_scale_height
            &&& control is PhaseG ==> after.hg_g == held
            &&& !(control is PhaseG) ==> after.hg_g == before.hg_g
            &&& after.enabled == before.enabled
            &&& after.num_steps == before.num_steps
        },
{
    let before = *old(rays);
    let after = *final(rays);
    assert(control != GodRayControl::MaxDistance ==> after.value(GodRayControl::MaxDistance) == before.value(
        GodRayControl::MaxDistance,
    ));
    assert(control != GodRayControl::ScatterRate ==> after.value(GodRayControl::ScatterRate) == before.value(
        GodRayControl::ScatterRate,
    ));
    assert(control != GodRayControl::ScaleHeight ==> after.value(GodRayControl::ScaleHeight) == before.value(
        GodRayControl::ScaleHeight,
    ));
    assert(control != GodRayControl::PhaseG ==> after.value(GodRayControl::PhaseG) == before.value(
        GodRayControl::PhaseG,
    ));
}

/// A ray takes between four and sixty-four steps, as many as chosen where that lies within; while the
/// shafts are off their number stays.
pub proof fn lemma_steps_stay_within_bounds(rays: &mut GodRaySettings, steps: i32)
    requires
        call_ensures(GodRaySettings::move_steps, (rays, steps), ()),
    ensures
        !old(rays).enabled ==> final(rays).num_steps == old(rays).num_steps,
        old(rays).enabled && 4 <= steps <= 64 ==> final(rays).num_steps == steps,
        old(rays).enabled && steps < 4 ==> final(rays).num_steps == 4,
        old(rays).enabled && steps > 64 ==> final(rays).num_steps == 64,
{
}

/// An image takes the room that there is, up to a width of 512, and is half as high as wide.
pub proof fn lemma_images_take_the_room(room: u64, size: (u64, u64))
    requires
        call_ensures(image_size, (room,), size),
    ensures
        size.0 <= room,
        size.0 <= 512_000_000_000,
        size.0 == room || size.0 == 512_000_000_000,
        size.0 - 1 <= 2 * size.1 <= size.0,
{
}

} // verus!
