//! Playoff endpoints.
use vstd::prelude::*;

use super::NHL_API_BASE_URL;
use crate::text::{dec_nat, lowercase_of, push_str, push_u64, to_lowercase};

verus! {

/// Path prefix of the playoff carousel.
pub const CAROUSEL: &'static str = "/v1/playoff-series/carousel/";

/// The playoff carousel of a season (e.g. `"20232024"`).
pub fn carousel_for_season(season: String) -> (r: String)
    ensures
        r@ == NHL_API_BASE_URL@ + CAROUSEL@ + season@,
{
    let mut s = String::from_str(NHL_API_BASE_URL);
    push_str(&mut s, CAROUSEL);
    push_str(&mut s, season.as_str());
    s
}

/// The games of one playoff series; the series letter is lower-cased.
pub fn series_games(season: u32, letter: &str) -> (r: String)
    ensures
        r@ == NHL_API_BASE_URL@ + "/v1/schedule/playoff-series/"@ + dec_nat(season as nat)
            + seq!['/'] + lowercase_of(letter@),
{
    let mut s = String::from_str(NHL_API_BASE_URL);
    push_str(&mut s, "/v1/schedule/playoff-series/");
    push_u64(&mut s, season as u64);
    push_str(&mut s, "/");
    let lower = to_lowercase(letter);
    push_str(&mut s, lower.as_str());
    proof {
        reveal_strlit("/");
    }
    s
}

} // verus!
