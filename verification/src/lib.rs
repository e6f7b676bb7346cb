//! A verified core for driving and inspecting Neovim TUI sessions.

pub mod text;
pub mod cli;
pub mod session_control;
pub mod screen;
pub mod session;
pub mod paths;
mod record;
pub mod output;
pub mod nvim;
pub mod dict;
pub mod session_io;
pub mod session_launch;
pub mod session_supervisor;
pub mod commands;
