//! Inputs of the playoff Elo updater.
use vstd::prelude::*;

verus! {

/// One completed game as the Elo updater needs it.
#[derive(Debug)]
pub struct GameResult {
    pub home_team: String,
    pub away_team: String,
    pub home_score: i32,
    pub away_score: i32,
}

} // verus!
