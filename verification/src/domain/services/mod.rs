//! Ranking services.
pub mod rankings;
