//! The distances and times that steer the streaming.
//!
//! Lengths are in millimetres and times in nanoseconds.

use vstd::prelude::*;

verus! {

/// Up to this altitude nearby nodes are loaded outside the view.
pub const PROXIMITY_LOADING_MAX_ALTITUDE: i64 = 1_000_000;

/// Nodes are kept within this distance by default.
pub const DEFAULT_KEEP_LOADED_RADIUS: u64 = 250_000;

/// Nodes are kept for this long by default after the last frame that asked for them.
pub const DEFAULT_UNLOAD_GRACE_PERIOD: u64 = 3_000_000_000;

/// Loaded nodes within this distance show even outside the view: the ground below the camera.
pub const FORCE_VISIBLE_RADIUS: u64 = 50_000;

/// What can be tuned while the client runs.
#[derive(Clone, Copy, Debug, PartialEq, Eq, Structural)]
pub struct LodTuning {
    pub keep_loaded_radius: u64,
    pub unload_grace_period: u64,
}

impl LodTuning {
    /// The default tuning.
    pub fn new() -> (tuning: Self)
        ensures
            tuning.keep_loaded_radius == DEFAULT_KEEP_LOADED_RADIUS,
            tuning.unload_grace_period == DEFAULT_UNLOAD_GRACE_PERIOD,
    {
        LodTuning {
            keep_loaded_radius: DEFAULT_KEEP_LOADED_RADIUS,
            unload_grace_period: DEFAULT_UNLOAD_GRACE_PERIOD,
        }
    }

    /// Whether a node at this distance is kept outside the view.
    pub fn is_nearby(&self, distance: u64) -> (yes: bool)
        ensures
            yes == (distance <= self.keep_loaded_radius),
    {
        distance <= self.keep_loaded_radius
    }
}

/// Whether the camera is low enough for nearby nodes to be loaded outside the view.
pub fn is_low_altitude(altitude: i64) -> (yes: bool)
    ensures
        yes == (altitude <= PROXIMITY_LOADING_MAX_ALTITUDE),
{
    altitude <= PROXIMITY_LOADING_MAX_ALTITUDE
}

/// Whether a node shows even outside the view.
pub fn is_forced_visible(altitude: i64, distance: u64) -> (yes: bool)
    ensures
        yes == (altitude <= PROXIMITY_LOADING_MAX_ALTITUDE && distance <= FORCE_VISIBLE_RADIUS),
{
    altitude <= PROXIMITY_LOADING_MAX_ALTITUDE && distance <= FORCE_VISIBLE_RADIUS
}

/// A difference, at least zero.
pub open spec fn left_over(a: int, b: int) -> int {
    if a >= b {
        a - b
    } else {
        0
    }
}

/// The distance to a node for the physics walk.
pub open spec fn distance_ahead(centre: int, lead: int, radius: int) -> int {
    if lead > 0 {
        left_over(left_over(centre, lead), radius)
    } else {
        left_over(centre, radius)
    }
}

/// The distance to the nearest point of a node, as if the camera had already moved on. `centre` is
/// the distance to the centre of the node and `radius` the size of the node around it; `lead` is
/// how far the motion of the camera goes toward the node. Nodes beside and behind the camera are
/// as far as they are.
pub fn effective_distance(centre: u64, lead: i64, radius: u64) -> (distance: u64)
    ensures
        distance == distance_ahead(centre as int, lead as int, radius as int),
{
    let ahead: u64 = if lead > 0 {
        if centre >= lead as u64 {
            centre - lead as u64
        } else {
            0
        }
    } else {
        centre
    };
    if ahead >= radius {
        ahead - radius
    } else {
        0
    }
}

/// Motion only brings nodes closer, by no more than the motion, and not those beside or behind the
/// camera; a node around the camera has no distance at all.
pub proof fn lemma_motion_brings_nodes_closer(centre: int, lead: int, radius: int)
    requires
        centre >= 0,
        radius >= 0,
    ensures
        0 <= distance_ahead(centre, lead, radius) <= distance_ahead(centre, 0, radius),
        lead <= 0 ==> distance_ahead(centre, lead, radius) == distance_ahead(centre, 0, radius),
        lead > 0 ==> distance_ahead(centre, 0, radius) - distance_ahead(centre, lead, radius)
            <= lead,
        centre <= radius ==> distance_ahead(centre, lead, radius) == 0,
{
}

/// The distance to the nearest point of a node: its size and the motion toward it come off the
/// distance to its centre; a motion away from it does not count.
pub proof fn lemma_distances_look_ahead(centre: u64, lead: i64, radius: u64, distance: u64)
    requires
        call_ensures(effective_distance, (centre, lead, radius), distance),
    ensures
        lead <= 0 && centre >= radius ==> distance == centre - radius,
        lead > 0 && centre >= radius + lead ==> distance == centre - radius - lead,
        centre <= radius || centre <= radius + lead ==> distance == 0,
{
}

/// By default nodes are kept within a quarter of a kilometre, for three seconds. Up to a kilometre
/// of altitude what is near is loaded outside the view, and what is within fifty metres shows.
pub proof fn lemma_default_distances(
    tuning: LodTuning,
    distance: u64,
    altitude: i64,
    near: bool,
    low: bool,
    forced: bool,
)
    requires
        call_ensures(LodTuning::new, (), tuning),
        call_ensures(LodTuning::is_nearby, (&tuning, distance), near),
        call_ensures(is_low_altitude, (altitude,), low),
        call_ensures(is_forced_visible, (altitude, distance), forced),
    ensures
        tuning.unload_grace_period == 3_000_000_000,
        near <==> distance <= 250_000,
        low <==> altitude <= 1_000_000,
        forced <==> altitude <= 1_000_000 && distance <= 50_000,
{
}

} // verus!
