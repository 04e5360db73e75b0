//! Boxscore and game-log helpers, the sequential bracket rebuild, the
//! ingest row shaping and the date range of a rankings backfill.
pub mod backtest;
pub mod fantasy;
pub mod nhl;
pub mod player_pool;
pub mod player_projection;
pub mod playoff_ingest;
pub mod scheduler;
