//! Computations behind drawing and text editing on the stage.
pub mod render;
pub mod text_overlay;
