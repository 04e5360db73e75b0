//! Bracket state, series classification and the pure prediction helpers
//! that work on integers.
pub mod backtest;
pub mod carousel;
pub mod grade;
pub mod player_projection;
pub mod playoff_elo;
pub mod race_sim;
pub mod season_phase;
pub mod series_projection;
