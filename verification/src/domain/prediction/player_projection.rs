//! Inputs of the per-player projection.
use vstd::prelude::*;

verus! {

/// Per-game skater stats used by the projection; optional columns may be
/// missing from the boxscore.
#[derive(Debug, Clone, Copy, Default)]
pub struct GameStats {
    pub goals: i32,
    pub assists: i32,
    pub shots: Option<i32>,
    pub pp_points: Option<i32>,
    pub toi_seconds: Option<i32>,
}

impl GameStats {
    /// Fantasy points of the game: goals plus assists.
    pub fn points(&self) -> (r: i32)
        requires
            i32::MIN <= self.goals + self.assists <= i32::MAX,
        ensures
            r == self.goals + self.assists,
    {
        self.goals + self.assists
    }
}

/// Caller-supplied data for each player to project.
#[derive(Debug)]
pub struct PlayerInput {
    pub nhl_id: i64,
    /// Exact name used for the historical-table lookup.
    pub player_name: String,
    pub nhl_team: String,
    /// Regular-season total points of the current season.
    pub rs_points: i32,
}

} // verus!
