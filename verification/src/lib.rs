//! ccstatusline-rs: the status line formatter for a coding agent's CLI, with its
//! parsing, layout and rendering logic verified.

pub mod cli;
pub mod config;
pub mod context;
pub mod error;
pub mod render;
pub mod text;
pub mod widgets;
