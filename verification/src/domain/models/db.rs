//! Rows of the fantasy-league tables.
use vstd::prelude::*;

verus! {

/// Fantasy team player.
#[derive(Debug)]
pub struct FantasyPlayer {
    pub id: i64,
    pub team_id: i64,
    pub nhl_id: i64,
    pub name: String,
    pub position: String,
    pub nhl_team: String,
}

/// The fantasy players rostered from one NHL team.
#[derive(Debug)]
pub struct NhlTeamPlayers {
    pub nhl_team: String,
    pub players: Vec<PlayerWithTeam>,
}

/// A rostered player together with the fantasy team that owns it.
#[derive(Debug)]
pub struct PlayerWithTeam {
    pub nhl_id: i64,
    pub name: String,
    pub fantasy_team_id: i64,
    pub fantasy_team_name: String,
    pub position: String,
    pub nhl_team: String,
}

/// How many players a fantasy team rosters from one NHL team.
#[derive(Debug)]
pub struct TeamNhlCount {
    pub team_id: i64,
    pub team_name: String,
    pub nhl_team: String,
    pub num_players: i64,
}

/// Fantasy team.
#[derive(Debug)]
pub struct FantasyTeam {
    pub id: i64,
    pub name: String,
}

/// Fantasy team with its roster.
#[derive(Debug)]
pub struct FantasyTeamWithPlayers {
    pub id: i64,
    pub name: String,
    pub players: Vec<FantasyPlayer>,
}

/// A fantasy team's exposure per NHL team.
#[derive(Debug)]
pub struct FantasyTeamBets {
    pub team_id: i64,
    pub team_name: String,
    pub bets: Vec<NhlBetCount>,
}

/// Number of rostered players from one NHL team.
#[derive(Debug)]
pub struct NhlBetCount {
    pub nhl_team: String,
    pub num_players: i64,
}

/// Fantasy sleeper pick.
#[derive(Debug)]
pub struct FantasySleeper {
    pub id: i64,
    pub team_id: Option<i64>,
    pub nhl_id: i64,
    pub name: String,
    pub position: String,
    pub nhl_team: String,
}

/// How often a fantasy team finished first or in the top three of a day.
#[derive(Debug)]
pub struct TeamDailyRankingStats {
    pub team_id: i64,
    pub wins: i32,
    pub top_three: i32,
    /// Dates on which the team ranked first.
    pub win_dates: Vec<String>,
    /// Dates on which the team ranked second or third.
    pub top_three_dates: Vec<String>,
}

/// League.
#[derive(Debug)]
pub struct League {
    pub id: String,
    pub name: String,
    pub season: String,
    pub visibility: String,
    pub created_by: Option<String>,
}

} // verus!
