//! Finding pairs of colliders with overlapping bounding boxes, for which contacts are created.

pub mod bvh_broad_phase;
pub mod diagnostics;

pub use diagnostics::BroadPhaseDiagnostics;
