//! Commands: the built-in ones, the run of a pipeline, and where output goes.

pub mod builtins;
pub mod cmds;
pub mod executor;
pub mod handlers;
pub mod utils;
