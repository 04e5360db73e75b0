//! Stats leaderboard endpoints.
use vstd::prelude::*;

use super::{NHL_API_BASE_URL, NHL_FETCH_LIMIT};
use crate::text::{dec_nat, push_str, push_u64};

verus! {

/// Skater leaderboards of a season and game type, with the fetch limit.
pub fn skater_stats_leaders(season: &u32, game_type: u8) -> (r: String)
    ensures
        r@ == NHL_API_BASE_URL@ + "/v1/skater-stats-leaders/"@ + dec_nat(*season as nat) + seq!['/']
            + dec_nat(game_type as nat) + "?limit="@ + dec_nat(NHL_FETCH_LIMIT as nat),
{
    let mut s = String::from_str(NHL_API_BASE_URL);
    push_str(&mut s, "/v1/skater-stats-leaders/");
    push_u64(&mut s, *season as u64);
    push_str(&mut s, "/");
    push_u64(&mut s, game_type as u64);
    push_str(&mut s, "?limit=");
    push_u64(&mut s, NHL_FETCH_LIMIT as u64);
    proof {
        reveal_strlit("/");
    }
    s
}

} // verus!
