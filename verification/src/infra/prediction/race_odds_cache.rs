//! Key of the cached race-odds payload.
use vstd::prelude::*;

use crate::text::{dec_nat, push_str, push_u64};

verus! {

/// Cache key prefix shared by every reader and writer.
pub const CACHE_KEY_PREFIX: &'static str = "race_odds:v4";

/// The league part of a key: the league id, `"global"` when empty.
pub open spec fn league_part(league_id: Seq<char>) -> Seq<char> {
    if league_id.len() == 0 {
        "global"@
    } else {
        league_id
    }
}

/// `race_odds:v4:{league|global}:{season}:{game type}:{date}`.
pub fn cache_key(league_id: &str, season: u32, game_type_num: u8, today: &str) -> (r: String)
    ensures
        r@ == CACHE_KEY_PREFIX@ + seq![':'] + league_part(league_id@) + seq![':'] + dec_nat(
            season as nat,
        ) + seq![':'] + dec_nat(game_type_num as nat) + seq![':'] + today@,
{
    let mut s = String::from_str(CACHE_KEY_PREFIX);
    push_str(&mut s, ":");
    if league_id.unicode_len() == 0 {
        push_str(&mut s, "global");
    } else {
        push_str(&mut s, league_id);
    }
    push_str(&mut s, ":");
    push_u64(&mut s, season as u64);
    push_str(&mut s, ":");
    push_u64(&mut s, game_type_num as u64);
    push_str(&mut s, ":");
    push_str(&mut s, today);
    proof {
        reveal_strlit(":");
    }
    assert(s@ =~= CACHE_KEY_PREFIX@ + seq![':'] + league_part(league_id@) + seq![':'] + dec_nat(
        season as nat,
    ) + seq![':'] + dec_nat(game_type_num as nat) + seq![':'] + today@);
    s
}

} // verus!
