//! SillyTavern character cards: PNG chunk embedding, the chara v1/v2 JSON
//! mapping, and the file-format dispatch.

pub mod png_chunks;
pub mod spec;
pub mod io;
