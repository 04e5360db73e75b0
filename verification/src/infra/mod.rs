//! Logic of the adapters: row shapes, bracket calibration inputs, URL and
//! cache-key builders, request parameter checks.
pub mod calibrate;
pub mod db;
pub mod jobs;
pub mod nhl;
pub mod prediction;
