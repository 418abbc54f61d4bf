//! Conversation orchestration core for a terminal chat client: message
//! history, tool dispatch, artifact extraction, and the input/render state
//! machine, with their contracts verified.

pub mod text;
pub mod artifacts;
pub mod engine;
pub mod messages;
pub mod tools;
