//! What the panels of the debug interface say and decide.

pub mod camera;
pub mod climate;
pub mod clock;
pub mod clouds;
pub mod compass;
pub mod help;
pub mod inspector;
pub mod location;
pub mod profiler;
pub mod shadow_diag;
pub mod slider;
pub mod streaming;
pub mod table;
pub mod tabs;
