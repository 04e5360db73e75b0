//! The projection inputs, shared with the domain module.
pub use crate::domain::prediction::player_projection::PlayerInput;
