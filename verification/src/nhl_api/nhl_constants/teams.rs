//! Team endpoints.
use vstd::prelude::*;

use super::NHL_API_BASE_URL;
use crate::text::push_str;

verus! {

/// Path of the current standings (also the list of all teams).
pub const STANDINGS: &'static str = "/v1/standings/now";

/// A team's logo.
pub fn team_logo(team_abbrev: &str) -> (r: String)
    ensures
        r@ == "https://assets.nhle.com/logos/nhl/svg/"@ + team_abbrev@ + "_light.svg"@,
{
    let mut s = String::from_str("https://assets.nhle.com/logos/nhl/svg/");
    push_str(&mut s, team_abbrev);
    push_str(&mut s, "_light.svg");
    s
}

/// Full URL of the current standings.
pub fn standings_url() -> (r: String)
    ensures
        r@ == NHL_API_BASE_URL@ + STANDINGS@,
{
    let mut s = String::from_str(NHL_API_BASE_URL);
    push_str(&mut s, STANDINGS);
    s
}

} // verus!
