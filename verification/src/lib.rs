//! Verified core of a streaming globe client.

pub mod arm;
pub mod blend;
pub mod body;
pub mod bones;
pub mod calendar;
pub mod camera_mode;
pub mod controller;
pub mod decimal;
pub mod gait_laws;
pub mod launch;
pub mod locomotion;
pub mod lod;
pub mod moon;
pub mod movement;
pub mod path_map;
pub mod places;
pub mod ragdoll;
pub mod skeleton;
pub mod teleport;
pub mod text;
pub mod ui;
pub mod wav;
