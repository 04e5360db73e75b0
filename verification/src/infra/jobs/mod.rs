//! Summaries and pure helpers of the background jobs.
pub mod edge_refresher;
pub mod meta_poller;
pub mod player_pool;
pub mod rehydrate;
pub mod scheduler;
