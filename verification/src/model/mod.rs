//! The document, the edits that change it, and the history that takes them back.
pub mod commands;
pub mod document;
pub mod laws;
pub mod undo;
