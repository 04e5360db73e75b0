//! NHL API endpoint addresses, the team-name table, the client's response
//! cache and request retries, the reading of the game-center feed, and
//! player search by name.
pub mod cache;
pub mod game_center;
pub mod nhl_constants;
pub mod retry;
pub mod search;
