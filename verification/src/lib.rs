//! Command expansion and launching for editor language-server configurations.

pub mod text;
pub mod strmap;
pub mod platform;
pub mod presets;
pub mod words;
pub mod expand;
pub mod config;
pub mod runner;
pub mod laws;
