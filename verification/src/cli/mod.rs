//! The command surfaces that wire the renderer into the coding agent and edit its
//! configuration: their decisions and the text they produce.

pub mod config_cmds;
pub mod install;
pub mod preview;
pub mod render;
