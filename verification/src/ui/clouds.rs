//! The panel for atmosphere and clouds, and the clock of the clouds.

use vstd::prelude::*;
use vstd::string::*;
use crate::decimal::{fixed, push_fixed};

verus! {

/// The pages of the atmosphere panel.
#[derive(Clone, Copy, Debug, PartialEq, Eq, Structural)]
pub enum AtmosphereSubTab {
    Overview,
    Layers,
    Shadows,
    GodRays,
    Climate,
}

impl AtmosphereSubTab {
    /// The page's caption.
    pub fn label(self) -> (caption: &'static str)
        ensures
            caption@ == match self {
                AtmosphereSubTab::Overview => "Overview"@,
                AtmosphereSubTab::Layers => "Layers"@,
                AtmosphereSubTab::Shadows => "Shadows"@,
                AtmosphereSubTab::GodRays => "God rays"@,
                AtmosphereSubTab::Climate => "Climate"@,
            },
    {
        match self {
            AtmosphereSubTab::Overview => "Overview",
            AtmosphereSubTab::Layers => "Layers",
            AtmosphereSubTab::Shadows => "Shadows",
            AtmosphereSubTab::GodRays => "God rays",
            AtmosphereSubTab::Climate => "Climate",
        }
    }

    /// The pages from left to right.
    pub fn all() -> (all: Vec<AtmosphereSubTab>)
        ensures
            all@ == seq![
                AtmosphereSubTab::Overview,
                AtmosphereSubTab::Layers,
                AtmosphereSubTab::Shadows,
                AtmosphereSubTab::GodRays,
                AtmosphereSubTab::Climate,
            ],
    {
        vec![
            AtmosphereSubTab::Overview,
            AtmosphereSubTab::Layers,
            AtmosphereSubTab::Shadows,
            AtmosphereSubTab::GodRays,
            AtmosphereSubTab::Climate,
        ]
    }
}

/// What the panel says unless exactly one camera has clouds.
pub fn clouds_notice(cameras: usize) -> (notice: Option<&'static str>)
    ensures
        match notice {
            Some(words) => cameras != 1 && words@ == "No CloudLayers found on any camera."@,
            None => cameras == 1,
        },
{
    if cameras == 1 {
        None
    } else {
        Some("No CloudLayers found on any camera.")
    }
}

/// What the cloud renderer shows in place of clouds.
#[derive(Clone, Copy, Debug, PartialEq, Eq, Structural)]
pub enum CloudDebugMode {
    Off,
    ShellHit,
    Noise,
    Density,
    Opacity,
    FogColor,
    FogExtinction,
    ViewExposure,
    ShadowMap,
    ClimateCoverage,
    Topography,
}

impl CloudDebugMode {
    /// The caption of the view.
    pub fn label_for(self) -> (caption: &'static str)
        ensures
            caption@ == match self {
                CloudDebugMode::Off => "Off (normal render)"@,
                CloudDebugMode::ShellHit => "Shell hit"@,
                CloudDebugMode::Noise => "Noise"@,
                CloudDebugMode::Density => "Density"@,
                CloudDebugMode::Opacity => "Opacity"@,
                CloudDebugMode::FogColor => "Fog colour (raw)"@,
                CloudDebugMode::FogExtinction => "Fog extinction × 10⁴"@,
                CloudDebugMode::ViewExposure => "view.exposure × 10⁵"@,
                CloudDebugMode::ShadowMap => "Shadow map (raw)"@,
                CloudDebugMode::ClimateCoverage => "Climate coverage"@,
                CloudDebugMode::Topography => "Topography"@,
            },
    {
        match self {
            CloudDebugMode::Off => "Off (normal render)",
            CloudDebugMode::ShellHit => "Shell hit",
            CloudDebugMode::Noise => "Noise",
            CloudDebugMode::Density => "Density",
            CloudDebugMode::Opacity => "Opacity",
            CloudDebugMode::FogColor => "Fog colour (raw)",
            CloudDebugMode::FogExtinction => "Fog extinction × 10⁴",
            CloudDebugMode::ViewExposure => "view.exposure × 10⁵",
            CloudDebugMode::ShadowMap => "Shadow map (raw)",
            CloudDebugMode::ClimateCoverage => "Climate coverage",
            CloudDebugMode::Topography => "Topography",
        }
    }

    /// What the view shows.
    pub fn help_for(self) -> (caption: &'static str)
        ensures
            caption@ == match self {
                CloudDebugMode::Off => "Composite cloud inscattering + transmittance into the HDR scene."@,
                CloudDebugMode::ShellHit => "Green = ray hits cloud shell (brightness ∝ segment length); red = miss."@,
                CloudDebugMode::Noise => "RGB = noise sampled at first-enabled-layer's tile size at shell midpoint."@,
                CloudDebugMode::Density => "Greyscale = total density across all layers at the shell midpoint."@,
                CloudDebugMode::Opacity => "Greyscale = 1 − transmittance from the full raymarch loop."@,
                CloudDebugMode::FogColor => "Full-screen `cloud.fog_color` value — diagnoses CPU→GPU pipe."@,
                CloudDebugMode::FogExtinction => "Full-screen `density_at_camera × 10⁴` — GPU-sampled cloud density at the camera position, the actual fog extinction."@,
                CloudDebugMode::ViewExposure => "Full-screen `view.exposure × 10⁵` — diagnoses composite view-uniform binding."@,
                CloudDebugMode::ShadowMap => "Scene modulated by raw cloud-shadow transmittance (bypasses strength fade). Red = outside footprint."@,
                CloudDebugMode::ClimateCoverage => "Greyscale climate coverage map (latitude bands + ocean bonus) at each pixel's projected world position."@,
                CloudDebugMode::Topography => "Raw topography height value. Sea level ≈ mid-grey, ocean dark, mountains bright."@,
            },
    {
        match self {
            CloudDebugMode::Off => "Composite cloud inscattering + transmittance into the HDR scene.",
            CloudDebugMode::ShellHit => "Green = ray hits cloud shell (brightness ∝ segment length); red = miss.",
            CloudDebugMode::Noise => "RGB = noise sampled at first-enabled-layer's tile size at shell midpoint.",
            CloudDebugMode::Density => "Greyscale = total density across all layers at the shell midpoint.",
            CloudDebugMode::Opacity => "Greyscale = 1 − transmittance from the full raymarch loop.",
            CloudDebugMode::FogColor => "Full-screen `cloud.fog_color` value — diagnoses CPU→GPU pipe.",
            CloudDebugMode::FogExtinction => "Full-screen `density_at_camera × 10⁴` — GPU-sampled cloud density at the camera position, the actual fog extinction.",
            CloudDebugMode::ViewExposure => "Full-screen `view.exposure × 10⁵` — diagnoses composite view-uniform binding.",
            CloudDebugMode::ShadowMap => "Scene modulated by raw cloud-shadow transmittance (bypasses strength fade). Red = outside footprint.",
            CloudDebugMode::ClimateCoverage => "Greyscale climate coverage map (latitude bands + ocean bonus) at each pixel's projected world position.",
            CloudDebugMode::Topography => "Raw topography height value. Sea level ≈ mid-grey, ocean dark, mountains bright.",
        }
    }

    /// The views in the order of the list.
    pub fn all() -> (all: Vec<CloudDebugMode>)
        ensures
            all@ == seq![
                CloudDebugMode::Off,
                CloudDebugMode::ShellHit,
                CloudDebugMode::Noise,
                CloudDebugMode::Density,
                CloudDebugMode::Opacity,
                CloudDebugMode::FogColor,
                CloudDebugMode::FogExtinction,
                CloudDebugMode::ViewExposure,
                CloudDebugMode::ShadowMap,
                CloudDebugMode::ClimateCoverage,
                CloudDebugMode::Topography,
            ],
    {
        vec![
            CloudDebugMode::Off,
            CloudDebugMode::ShellHit,
            CloudDebugMode::Noise,
            CloudDebugMode::Density,
            CloudDebugMode::Opacity,
            CloudDebugMode::FogColor,
            CloudDebugMode::FogExtinction,
            CloudDebugMode::ViewExposure,
            CloudDebugMode::ShadowMap,
            CloudDebugMode::ClimateCoverage,
            CloudDebugMode::Topography,
        ]
    }
}

/// How much work goes into the clouds.
#[derive(Clone, Copy, Debug, PartialEq, Eq, Structural)]
pub enum CloudQuality {
    Low,
    Medium,
    High,
}

impl CloudQuality {
    /// The caption of the tier.
    pub fn label(self) -> (caption: &'static str)
        ensures
            caption@ == match self {
                CloudQuality::Low => "Low"@,
                CloudQuality::Medium => "Medium"@,
                CloudQuality::High => "High"@,
            },
    {
        match self {
            CloudQuality::Low => "Low",
            CloudQuality::Medium => "Medium",
            CloudQuality::High => "High",
        }
    }

    /// What the tier costs.
    pub fn quality_summary(self) -> (caption: &'static str)
        ensures
            caption@ == match self {
                CloudQuality::Low => "32 primary steps, 3 light steps, 2 octaves, 1/4 res. Fastest."@,
                CloudQuality::Medium => "64 primary steps, 5 light steps, 3 octaves, 1/2 res."@,
                CloudQuality::High => "128 primary steps, 6 light steps, 4 octaves, 1/2 res. Best looks."@,
            },
    {
        match self {
            CloudQuality::Low => "32 primary steps, 3 light steps, 2 octaves, 1/4 res. Fastest.",
            CloudQuality::Medium => "64 primary steps, 5 light steps, 3 octaves, 1/2 res.",
            CloudQuality::High => "128 primary steps, 6 light steps, 4 octaves, 1/2 res. Best looks.",
        }
    }

    /// The tiers from left to right.
    pub fn all() -> (all: Vec<CloudQuality>)
        ensures
            all@ == seq![
                CloudQuality::Low,
                CloudQuality::Medium,
                CloudQuality::High,
            ],
    {
        vec![
            CloudQuality::Low,
            CloudQuality::Medium,
            CloudQuality::High,
        ]
    }
}

/// The clock of the clouds starts over after this many nanoseconds.
pub const CLOUD_PERIOD: u64 = 1_000_000_000_000_000;

/// A day in nanoseconds.
pub const DAY: u64 = 86_400_000_000_000;

/// The clock of the clouds: the time since the year began, in nanoseconds, within its period.
/// Moving the time of day moves the clouds with it.
pub fn cloud_world_time(day_of_year: u32, time_of_day: u64) -> (time: u64)
    requires
        time_of_day <= DAY,
        day_of_year <= 366,
    ensures
        time == (day_of_year * DAY + time_of_day) % (CLOUD_PERIOD as int),
        time < CLOUD_PERIOD,
{
    (day_of_year as u64 * DAY + time_of_day) % CLOUD_PERIOD
}

/// The time of the clouds that the panel shows, from billionths of a second.
pub fn world_time_label(time: u64) -> (line: String)
    requires
        time < CLOUD_PERIOD,
    ensures
        line@ == "World time: "@ + fixed(time as int, 1)
            + " s (wind / weather derive from this; set the world clock to move clouds)"@,
{
    let mut line = "World time: ".to_owned();
    push_fixed(&mut line, time as i64, 1);
    line.append(" s (wind / weather derive from this; set the world clock to move clouds)");
    line
}

/// Clouds run with the world: a later moment of the same period is as much later on the clock of
/// the clouds.
pub proof fn lemma_clouds_follow_the_clock(now: int, later: int)
    requires
        0 <= now <= later,
        now / (CLOUD_PERIOD as int) == later / (CLOUD_PERIOD as int),
    ensures
        later % (CLOUD_PERIOD as int) - now % (CLOUD_PERIOD as int) == later - now,
{
    vstd::arithmetic::div_mod::lemma_fundamental_div_mod(now, CLOUD_PERIOD as int);
    vstd::arithmetic::div_mod::lemma_fundamental_div_mod(later, CLOUD_PERIOD as int);
}

/// The clock of the clouds tells the time since the year began, in days and the time of the day, and
/// starts over after a million seconds; midnight is the end of one day and the start of the next.
pub proof fn lemma_clouds_tell_the_time_of_the_year(
    day: u32,
    time_of_day: u64,
    time: u64,
    last: u64,
    next: u64,
)
    requires
        time_of_day <= 86_400_000_000_000,
        day < 366,
        call_ensures(cloud_world_time, (day, time_of_day), time),
        call_ensures(cloud_world_time, (day, 86_400_000_000_000), last),
        call_ensures(cloud_world_time, ((day + 1) as u32, 0), next),
    ensures
        time < 1_000_000_000_000_000,
        exists|rounds: int|
            day * 86_400_000_000_000 + time_of_day == time + #[trigger] whole_rounds(rounds),
        last == next,
{
    let whole = day * DAY + time_of_day;
    let rounds = whole / (CLOUD_PERIOD as int);
    vstd::arithmetic::div_mod::lemma_fundamental_div_mod(whole, CLOUD_PERIOD as int);
    assert(whole_rounds(rounds) == rounds * 1_000_000_000_000_000);
    assert(whole == time + whole_rounds(rounds));
}

/// How long the clock of the clouds takes for a number of rounds.
pub open spec fn whole_rounds(rounds: int) -> int {
    rounds * 1_000_000_000_000_000
}

} // verus!
