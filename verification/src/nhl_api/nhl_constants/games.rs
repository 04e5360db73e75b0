//! Game and schedule endpoints.
use vstd::prelude::*;

use super::NHL_API_BASE_URL;
use crate::text::{dec_nat, push_str, push_u64};

verus! {

/// Path of today's schedule.
pub const TODAY_SCHEDULE: &'static str = "/v1/schedule/now";

/// Full URL of today's schedule.
pub fn today_schedule_url() -> (r: String)
    ensures
        r@ == NHL_API_BASE_URL@ + TODAY_SCHEDULE@,
{
    let mut s = String::from_str(NHL_API_BASE_URL);
    push_str(&mut s, TODAY_SCHEDULE);
    s
}

/// The schedule of one date (`YYYY-MM-DD`).
pub fn schedule_by_date(date: &str) -> (r: String)
    ensures
        r@ == NHL_API_BASE_URL@ + "/v1/schedule/"@ + date@,
{
    let mut s = String::from_str(NHL_API_BASE_URL);
    push_str(&mut s, "/v1/schedule/");
    push_str(&mut s, date);
    s
}

/// A game's landing page.
pub fn game_center(game_id: u32) -> (r: String)
    ensures
        r@ == NHL_API_BASE_URL@ + "/v1/gamecenter/"@ + dec_nat(game_id as nat) + "/landing"@,
{
    let mut s = String::from_str(NHL_API_BASE_URL);
    push_str(&mut s, "/v1/gamecenter/");
    push_u64(&mut s, game_id as u64);
    push_str(&mut s, "/landing");
    s
}

/// A game's boxscore.
pub fn game_boxscore(game_id: u32) -> (r: String)
    ensures
        r@ == NHL_API_BASE_URL@ + "/v1/gamecenter/"@ + dec_nat(game_id as nat) + "/boxscore"@,
{
    let mut s = String::from_str(NHL_API_BASE_URL);
    push_str(&mut s, "/v1/gamecenter/");
    push_u64(&mut s, game_id as u64);
    push_str(&mut s, "/boxscore");
    s
}

} // verus!
