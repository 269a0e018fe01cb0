//! Time spent in the broad phase.

use core::time::Duration;
use vstd::prelude::*;

verus! {

/// The path of [`BroadPhaseDiagnostics::find_pairs`].
pub const FIND_PAIRS: &'static str = "avian/broad_phase/find_pairs";

/// The path of [`BroadPhaseDiagnostics::optimize`].
pub const OPTIMIZE: &'static str = "avian/broad_phase/optimize";

/// The path of [`BroadPhaseDiagnostics::update`].
pub const UPDATE: &'static str = "avian/broad_phase/update";

/// Diagnostics for collision detection.
#[derive(Clone, Copy, Debug, Default)]
pub struct BroadPhaseDiagnostics {
    /// Time spent finding potential collision pairs in the broad phase.
    pub find_pairs: Duration,
    /// Time spent optimizing acceleration structures for the broad phase.
    pub optimize: Duration,
    /// Time spent updating bounding boxes and tree nodes.
    pub update: Duration,
}

impl BroadPhaseDiagnostics {
    /// Returns the times with their diagnostic paths.
    pub fn timer_paths(&self) -> (res: Vec<(&'static str, Duration)>)
        ensures
            res@ == seq![
                (FIND_PAIRS, self.find_pairs),
                (OPTIMIZE, self.optimize),
                (UPDATE, self.update),
            ],
    {
        let mut paths: Vec<(&'static str, Duration)> = Vec::new();
        paths.push((FIND_PAIRS, self.find_pairs));
        paths.push((OPTIMIZE, self.optimize));
        paths.push((UPDATE, self.update));
        paths
    }
}

} // verus!
