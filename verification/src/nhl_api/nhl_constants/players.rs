//! Player endpoints.
use vstd::prelude::*;

use super::NHL_API_BASE_URL;
use crate::text::{dec_int, dec_nat, push_i64, push_str, push_u64};

verus! {

/// A player's landing page.
pub fn player_details(player_id: i64) -> (r: String)
    ensures
        r@ == NHL_API_BASE_URL@ + "/v1/player/"@ + dec_int(player_id as int) + "/landing"@,
{
    let mut s = String::from_str(NHL_API_BASE_URL);
    push_str(&mut s, "/v1/player/");
    push_i64(&mut s, player_id);
    push_str(&mut s, "/landing");
    s
}

/// A player's headshot.
pub fn player_image(player_id: i64) -> (r: String)
    ensures
        r@ == "https://assets.nhle.com/mugs/nhl/latest/"@ + dec_int(player_id as int) + ".png"@,
{
    let mut s = String::from_str("https://assets.nhle.com/mugs/nhl/latest/");
    push_i64(&mut s, player_id);
    push_str(&mut s, ".png");
    s
}

/// A team's current roster.
pub fn team_roster(team_abbrev: &str) -> (r: String)
    ensures
        r@ == NHL_API_BASE_URL@ + "/v1/roster/"@ + team_abbrev@ + "/current"@,
{
    let mut s = String::from_str(NHL_API_BASE_URL);
    push_str(&mut s, "/v1/roster/");
    push_str(&mut s, team_abbrev);
    push_str(&mut s, "/current");
    s
}

/// A player's game log for one season and game type.
pub fn player_game_log(player_id: i64, season: &u32, game_type: u8) -> (r: String)
    ensures
        r@ == NHL_API_BASE_URL@ + "/v1/player/"@ + dec_int(player_id as int) + "/game-log/"@
            + dec_nat(*season as nat) + seq!['/'] + dec_nat(game_type as nat),
{
    let mut s = String::from_str(NHL_API_BASE_URL);
    push_str(&mut s, "/v1/player/");
    push_i64(&mut s, player_id);
    push_str(&mut s, "/game-log/");
    push_u64(&mut s, *season as u64);
    push_str(&mut s, "/");
    push_u64(&mut s, game_type as u64);
    proof {
        reveal_strlit("/");
    }
    s
}

} // verus!
