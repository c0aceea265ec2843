//! What the controls for clouds and climate do, in words.

use vstd::prelude::*;
use crate::ui::climate::{ClimateControl, ClimateSwitch, GodRayControl, LayerControl};

verus! {

impl ClimateControl {
    /// What the slider does.
    pub fn help(self) -> (text: &'static str)
        ensures
            text@ == match self {
                ClimateControl::LatitudeStrength => "How strongly the latitude-band model replaces each layer's base coverage. 0 = use layer.coverage everywhere (legacy); 1 = pure ITCZ / subtropical / storm-track bands."@,
                ClimateControl::OceanStrength => "Additive coverage bonus over ocean tiles. 0 = land and ocean identical; 1 = ocean gets up to +0.25 coverage (stratocumulus deck)."@,
                ClimateControl::SeasonalShift => "Peak ITCZ latitude offset at solstice (scaled by sun declination). 12° is roughly realistic."@,
                ClimateControl::NorthBias => "Constant northward shift of the ITCZ centre. Earth's annual-mean ITCZ sits ~5° N because the Northern Hemisphere has more land mass; without this, equinox dates would render a perfectly symmetric band on the geographic equator."@,
                ClimateControl::Tau => "Relaxation timescale toward the climate forcing target. Short τ = sim hugs the climate (less weather character, more 'as rendered'); long τ = sim drifts freely (visible weather, may diverge from climate details). Default 24 h. Real GCMs use 4-40 days."@,
                ClimateControl::WindSpeed => "Multiplier on the analytic Hadley/Ferrel zonal wind speeds. 1.0 = Earth-realistic. Crank for faster weather migration in timelapse."@,
                ClimateControl::WindMeander => "Strength of the curl-noise perturbation on top of the analytic Hadley/Ferrel zonal flow. 0 = pure east-west wind (clouds drift in straight lines, quickly converge to latitude bands); 1 = strong meander (jet stream wobbles, fronts curl, weather features develop genuine 2D structure rather than being smeared into stripes by the zonal shear)."@,
                ClimateControl::Step => "World-time duration of one sim integration step. Smaller = smoother evolution; larger = bigger jumps per step. 60 s default."@,
                ClimateControl::VorticityStrength => "Scale on the streamfunction-derived wind perturbation (m/s per ψ-gradient unit). Default 2e-4 lands the perturbation ~comparable to the trades when ω is at equilibrium. A safety CFL clamp in the shader bounds the per-step displacement so very high values just cap rather than blowing the sim up."@,
                ClimateControl::VorticityForcing => "Rate at which the climate gradient generates new vorticity (Coriolis-signed). Calibrated against the damping τ so default 8e-5 gives equilibrium ω ~1 (FP16-safe). Crank for more dramatic cyclogenesis; too high saturates the field."@,
                ClimateControl::VorticityDamping => "Rayleigh damping timescale for vorticity. Real GCMs use ~1 day. Lower = faster decay (less persistent weather); higher = vorticity accumulates over longer windows."@,
            },
    {
        match self {
            ClimateControl::LatitudeStrength => "How strongly the latitude-band model replaces each layer's base coverage. 0 = use layer.coverage everywhere (legacy); 1 = pure ITCZ / subtropical / storm-track bands.",
            ClimateControl::OceanStrength => "Additive coverage bonus over ocean tiles. 0 = land and ocean identical; 1 = ocean gets up to +0.25 coverage (stratocumulus deck).",
            ClimateControl::SeasonalShift => "Peak ITCZ latitude offset at solstice (scaled by sun declination). 12° is roughly realistic.",
            ClimateControl::NorthBias => "Constant northward shift of the ITCZ centre. Earth's annual-mean ITCZ sits ~5° N because the Northern Hemisphere has more land mass; without this, equinox dates would render a perfectly symmetric band on the geographic equator.",
            ClimateControl::Tau => "Relaxation timescale toward the climate forcing target. Short τ = sim hugs the climate (less weather character, more 'as rendered'); long τ = sim drifts freely (visible weather, may diverge from climate details). Default 24 h. Real GCMs use 4-40 days.",
            ClimateControl::WindSpeed => "Multiplier on the analytic Hadley/Ferrel zonal wind speeds. 1.0 = Earth-realistic. Crank for faster weather migration in timelapse.",
            ClimateControl::WindMeander => "Strength of the curl-noise perturbation on top of the analytic Hadley/Ferrel zonal flow. 0 = pure east-west wind (clouds drift in straight lines, quickly converge to latitude bands); 1 = strong meander (jet stream wobbles, fronts curl, weather features develop genuine 2D structure rather than being smeared into stripes by the zonal shear).",
            ClimateControl::Step => "World-time duration of one sim integration step. Smaller = smoother evolution; larger = bigger jumps per step. 60 s default.",
            ClimateControl::VorticityStrength => "Scale on the streamfunction-derived wind perturbation (m/s per ψ-gradient unit). Default 2e-4 lands the perturbation ~comparable to the trades when ω is at equilibrium. A safety CFL clamp in the shader bounds the per-step displacement so very high values just cap rather than blowing the sim up.",
            ClimateControl::VorticityForcing => "Rate at which the climate gradient generates new vorticity (Coriolis-signed). Calibrated against the damping τ so default 8e-5 gives equilibrium ω ~1 (FP16-safe). Crank for more dramatic cyclogenesis; too high saturates the field.",
            ClimateControl::VorticityDamping => "Rayleigh damping timescale for vorticity. Real GCMs use ~1 day. Lower = faster decay (less persistent weather); higher = vorticity accumulates over longer windows.",
        }
    }
}

impl ClimateSwitch {
    /// What the box does; the first one says it by its caption.
    pub fn help(self) -> (text: Option<&'static str>)
        ensures
            match text {
                None => self is Climate,
                Some(words) => match self {
                    ClimateSwitch::Climate => false,
                    ClimateSwitch::Sim => words@ == "When on, the runtime samples a per-frame-advected version of the climate map instead of the static bake. Clouds drift with the analytic wind cells (trades, westerlies, polar easterlies) and the planet evolves over hours of world time. Initialised from the bake; pulled gently back toward the denoised climate target (G channel of the bake) so it never drifts to garbage."@,
                    ClimateSwitch::Coriolis => words@ == "Apply Coriolis deflection in the wind field. Without this, swirling structures would be handedness-agnostic. Defaults on."@,
                    ClimateSwitch::Vorticity => words@ == "Carries a vorticity field alongside the propensity field; solves a Poisson equation each frame for a streamfunction whose curl perturbs the wind. Enables spontaneous cyclonic structures (mid-latitude lows, tropical waves) on top of the analytic flow."@,
                },
            },
    {
        match self {
            ClimateSwitch::Climate => None,
            ClimateSwitch::Sim => Some(
                "When on, the runtime samples a per-frame-advected version of the climate map instead of the static bake. Clouds drift with the analytic wind cells (trades, westerlies, polar easterlies) and the planet evolves over hours of world time. Initialised from the bake; pulled gently back toward the denoised climate target (G channel of the bake) so it never drifts to garbage.",
            ),
            ClimateSwitch::Coriolis => Some(
                "Apply Coriolis deflection in the wind field. Without this, swirling structures would be handedness-agnostic. Defaults on.",
            ),
            ClimateSwitch::Vorticity => Some(
                "Carries a vorticity field alongside the propensity field; solves a Poisson equation each frame for a streamfunction whose curl perturbs the wind. Enables spontaneous cyclonic structures (mid-latitude lows, tropical waves) on top of the analytic flow.",
            ),
        }
    }
}

impl LayerControl {
    /// What the slider does, if it needs saying.
    pub fn help(self) -> (text: Option<&'static str>)
        ensures
            text is Some <==> self is ClimateStrength,
            text matches Some(words) ==> words@
                == "Per-layer multiplier on the global climate model's influence. Cirrus defaults low (mostly uniform global cirrus); stratocumulus defaults to full (follows latitude bands tightly)."@,
    {
        match self {
            LayerControl::ClimateStrength => Some(
                "Per-layer multiplier on the global climate model's influence. Cirrus defaults low (mostly uniform global cirrus); stratocumulus defaults to full (follows latitude bands tightly).",
            ),
            _ => None,
        }
    }
}

impl GodRayControl {
    /// What the slider does.
    pub fn help(self) -> (text: &'static str)
        ensures
            text@ == match self {
                GodRayControl::MaxDistance => "Per-pixel raymarch cap. Sky pixels get marched all the way to this; past the shadow-map footprint it doesn't matter anyway."@,
                GodRayControl::ScatterRate => "Per-metre air-scatter coefficient. Controls overall shaft brightness."@,
                GodRayControl::ScaleHeight => "Exponential atmosphere falloff. Higher = shafts visible at higher altitudes."@,
                GodRayControl::PhaseG => "Henyey-Greenstein anisotropy. 0 = isotropic (visible everywhere), near 1 = tight forward peak (only when looking at the sun)."@,
            },
    {
        match self {
            GodRayControl::MaxDistance => "Per-pixel raymarch cap. Sky pixels get marched all the way to this; past the shadow-map footprint it doesn't matter anyway.",
            GodRayControl::ScatterRate => "Per-metre air-scatter coefficient. Controls overall shaft brightness.",
            GodRayControl::ScaleHeight => "Exponential atmosphere falloff. Higher = shafts visible at higher altitudes.",
            GodRayControl::PhaseG => "Henyey-Greenstein anisotropy. 0 = isotropic (visible everywhere), near 1 = tight forward peak (only when looking at the sun).",
        }
    }
}

/// What the slider for the steps of a ray does.
pub fn steps_help() -> (text: &'static str)
    ensures
        text@ == "Raymarch sample count per pixel. Higher = sharper shaft edges + less banding, but more fill cost."@,
{
    "Raymarch sample count per pixel. Higher = sharper shaft edges + less banding, but more fill cost."
}

/// What the slider for the strength of the shadows does.
pub fn shadow_help() -> (text: &'static str)
    ensures
        text@ == "Multiplier on the cloud-shadow apply pass. 1.0 = default (~45 % darkening under full shadow). Crank up for tuning, especially handy for moonlit-shadow visibility tests."@,
{
    "Multiplier on the cloud-shadow apply pass. 1.0 = default (~45 % darkening under full shadow). Crank up for tuning, especially handy for moonlit-shadow visibility tests."
}

/// What the box that locks the inspector's cursor does.
pub fn lock_help() -> (text: &'static str)
    ensures
        text@ == "Pins the inspect cursor at the centre of the window regardless of mouse position, so you can vary just camera pose and watch the same notional pixel's values change. Off = the cursor follows the mouse (and pauses while hovering an egui panel)."@,
{
    "Pins the inspect cursor at the centre of the window regardless of mouse position, so you can vary just camera pose and watch the same notional pixel's values change. Off = the cursor follows the mouse (and pauses while hovering an egui panel)."
}

} // verus!
