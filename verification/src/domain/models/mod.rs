//! Data shapes shared across the crate.
pub mod db;
pub mod fantasy;
pub mod nhl;
