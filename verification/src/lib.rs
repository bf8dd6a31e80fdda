//! Verified core of a character-chat assistant: card formats, prompt
//! context assembly, world-book injection and the SSE stream parser.

pub mod avatar;
pub mod cards;
pub mod chat;
pub mod encoding;
pub mod error;
pub mod json;
pub mod llm;
pub mod models;
pub mod records;
pub mod settings;
pub mod text;
