//! Pulso's presentation model, its reversible edits and the editor's decisions,
//! with their specifications.
pub mod canvas;
pub mod editor;
pub mod io;
pub mod model;
pub mod preferences;
pub mod show;
pub mod text;
