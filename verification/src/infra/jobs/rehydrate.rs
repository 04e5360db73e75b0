//! Summary of a mirror rehydration.
use vstd::prelude::*;

use crate::calendar::{day_run, day_texts, parse_day, views, ymd_day};
use crate::text::str_eq;

verus! {

/// Counters of one rehydration run; failures are listed, not fatal.
#[derive(Debug, Default)]
pub struct RehydrateSummary {
    pub games_upserted: usize,
    pub skater_rows: usize,
    pub goalie_rows: usize,
    pub standings_rows: usize,
    pub rosters_upserted: usize,
    pub rosters_skipped_fresh: bool,
    pub bracket_captured: bool,
    pub aggregates_skipped_fresh: bool,
    pub boxscore_games_processed: usize,
    pub boxscore_player_rows: usize,
    pub landing_captures: usize,
    pub errors: Vec<String>,
}

/// What a rehydration does with one mirrored game.
#[derive(Debug, Clone, Copy, PartialEq, Eq, Structural)]
pub struct GameRowSteps {
    /// Capture the write-once pre-game landing.
    pub capture_landing: bool,
    /// Fetch the boxscore and upsert the player lines.
    pub fetch_boxscore: bool,
}

/// The steps for a game in state `state` (its wire name): the landing for
/// a future or warming-up game, the boxscore for any game but a future
/// one.
pub fn game_row_steps(state: &str) -> (r: GameRowSteps)
    ensures
        r.capture_landing == (state@ == "FUT"@ || state@ == "PRE"@),
        r.fetch_boxscore == (state@ != "FUT"@),
{
    let fut = str_eq(state, "FUT");
    let pre = str_eq(state, "PRE");
    GameRowSteps { capture_landing: fut || pre, fetch_boxscore: !fut }
}

/// The first day a schedule rehydration visits: the playoff start, or
/// `today` where the start does not parse or lies after it.
pub open spec fn schedule_first_day(playoff_start: Seq<char>, today: i32) -> int {
    match ymd_day(playoff_start) {
        Some(s) if s <= today => s as int,
        _ => today as int,
    }
}

/// The dates whose schedules a rehydration refreshes: from the playoff
/// start (or `today`, see [`schedule_first_day`]) through the day after
/// `today`, as `YYYY-MM-DD` texts. `today` is a day number.
pub fn schedule_dates(playoff_start: &str, today: i32) -> (r: Vec<String>)
    requires
        today < i32::MAX,
    ensures
        day_run(views(r@), schedule_first_day(playoff_start@, today), today + 1),
{
    let first = match parse_day(playoff_start) {
        Ok(s) => {
            if s <= today {
                s
            } else {
                today
            }
        },
        Err(_) => today,
    };
    day_texts(first, today + 1)
}

} // verus!
