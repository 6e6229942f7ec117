//! From a line to its redirections and the stages of its pipeline.

pub mod parser;
pub mod pipe;
pub mod redir;
