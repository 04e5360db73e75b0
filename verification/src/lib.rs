//! Fantasy-hockey playoff pool: data models, bracket reconstruction,
//! series classification, fantasy rankings, the decisions of the
//! background jobs, the NHL client's cache and retries, and the draft-room
//! socket, each stated and proved with Verus.
pub mod calendar;
pub mod domain;
pub mod error;
pub mod infra;
pub mod nhl_api;
pub mod sorting;
pub mod tally;
pub mod text;
pub mod utils;
pub mod ws;
