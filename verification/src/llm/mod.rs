//! Talking to the model: context assembly, world-book injection, request
//! building and the streamed reply.

pub mod client;
pub mod context;
pub mod lorebook;
pub mod sse;
pub mod stream;
