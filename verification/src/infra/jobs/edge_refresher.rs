//! Summary of an Edge analytics refresh.
use vstd::prelude::*;

verus! {

/// Counters of one refresh run.
#[derive(Debug, Default)]
pub struct RefreshSummary {
    pub refreshed: usize,
    pub errors: usize,
    pub skipped_fresh: bool,
}

} // verus!
