//! Level-of-detail streaming: which nodes and bulks of the octree to hold.
//!
//! Two walks run from the root each frame. The render walk refines on screen
//! error and culls against the view; the physics walk refines on distance alone
//! and picks the nodes that carry terrain colliders. Both read the same caches,
//! and a node stays alive as long as either walk asked for it within the grace
//! period.

pub mod arrivals;
pub mod colliders;
pub mod culling;
pub mod laws;
pub mod listing;
pub mod model;
pub mod physics;
pub mod render;
pub mod requests;
pub mod retention;
pub mod snapshot;
pub mod state;
pub mod tuning;
pub mod upkeep;
pub mod walks;
