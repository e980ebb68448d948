//! Shared room state for a real-time hub: membership, moderation, message
//! history, session events and broadcast planning.
pub mod broadcast;
pub mod channel;
pub mod error;
pub mod laws;
pub mod message;
pub mod room;
pub mod router;
pub mod session;
pub mod session_model;
pub mod text;
