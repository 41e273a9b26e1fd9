//! Verified core of a beat-bar video overlay renderer.
pub mod config;
pub mod project;
pub mod renderer;
pub mod server;
pub mod text;
