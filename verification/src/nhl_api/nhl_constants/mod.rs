//! Addresses of the NHL API endpoints, by resource.
pub mod edge;
pub mod games;
pub mod players;
pub mod playoffs;
pub mod scores;
pub mod stats;
pub mod team_names;
pub mod teams;

use vstd::prelude::*;

verus! {

/// Base URL of the NHL API.
pub const NHL_API_BASE_URL: &'static str = "https://api-web.nhle.com";

/// Row limit asked of the stats leaderboards.
pub const NHL_FETCH_LIMIT: u32 = 1000;

} // verus!
