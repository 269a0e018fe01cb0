//! Finding and describing contacts between colliders.

pub mod broad_phase;
pub mod collision_layers;
pub mod contact_graph;
pub mod hooks;
