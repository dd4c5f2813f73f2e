//! Configuration model and command logic for ReachPy workspaces.

pub mod text;
pub mod path;
pub mod config;
pub mod error;
pub mod resolve;
pub mod display;
pub mod run;
pub mod reload;
pub mod size;
pub mod commands;
pub mod package;
