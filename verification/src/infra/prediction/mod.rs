//! Narrator fallback, the team-diagnosis headline and the race-odds cache key.
pub mod claude;
pub mod race_odds_cache;
