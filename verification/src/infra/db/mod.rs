//! Row shapes of the database queries and what is computed around them:
//! the random draft order, the skater leaderboard merge, and the grouping
//! of rostered players by fantasy team.
pub mod draft;
pub mod league_stats;
pub mod nhl_mirror;
pub mod teams;
