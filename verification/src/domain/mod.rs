//! Pure domain logic: models, ports, prediction helpers and rankings.
pub mod models;
pub mod ports;
pub mod prediction;
pub mod services;
