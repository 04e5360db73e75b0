//! Rows of the league statistics queries.
use vstd::prelude::*;

verus! {

/// Rostered players per NHL team within a league.
#[derive(Debug)]
pub struct NhlTeamRosterCountRow {
    pub nhl_team: String,
    pub rostered_count: i64,
}

/// Playoff points of an NHL team.
#[derive(Debug)]
pub struct NhlTeamPlayoffPointsRow {
    pub team_abbrev: String,
    pub playoff_points: i64,
}

/// A top skater of an NHL team.
#[derive(Debug)]
pub struct NhlTeamTopSkaterRow {
    pub team_abbrev: String,
    pub player_id: i64,
    pub name: String,
    pub points: i64,
}

/// A rostered skater's playoff points.
#[derive(Debug)]
pub struct RosteredSkaterPointsRow {
    pub nhl_id: i64,
    pub name: String,
    pub nhl_team: String,
    pub fantasy_team_id: i64,
    pub fantasy_team_name: String,
    pub playoff_points: i64,
}

} // verus!
