//! Verified core of the wrap microVM launcher.

pub mod text;
pub mod ansi;
pub mod ui;
pub mod shell;
pub mod methods;
pub mod yaml;
pub mod digest;
pub mod paths;
pub mod config;
pub mod stages;
pub mod session;
pub mod display_laws;
