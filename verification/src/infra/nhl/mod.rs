//! Request helpers around the NHL data.
pub mod urls;
