//! The draft-room WebSocket's per-event decisions.
pub mod draft_socket;
