//! Thread-scoped history and notes for local context recovery.

pub mod backend;
pub mod call_laws;
pub mod context;
pub mod context_laws;
pub mod history;
pub mod history_laws;
pub mod json;
pub mod limits;
pub mod local;
pub mod note_helpers;
pub mod note_laws;
pub mod note_search_laws;
pub mod note_storage;
pub mod note_storage_laws;
pub mod notes;
pub mod privacy;
pub mod projection;
pub mod projection_laws;
pub mod records;
pub mod scanner;
pub mod scanner_laws;
pub mod text;
pub mod text_laws;
pub mod tool_output;
