//! Ports: the swappable edges of the system.
use vstd::prelude::*;

verus! {

/// The component that runs a fantasy draft and writes its picks.
pub trait DraftEngine: Send + Sync {
}

/// A read-only source of NHL hockey data.
pub trait NhlDataSource: Send + Sync {
}

/// The narrative writer behind a team's read: handed a team's payload, it
/// gives back an optional markdown text, `None` meaning that the page goes
/// without one. Its asynchronous method takes the handlers' payload type
/// and is declared beside the handlers, outside this library.
pub trait PredictionService: Send + Sync {
}

} // verus!
