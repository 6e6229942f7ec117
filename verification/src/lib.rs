//! The execution core of an interactive command shell: tokenizing a line,
//! extracting redirections, segmenting a pipeline, running built-in commands
//! and planning the processes, pipes and descriptors of a pipeline.

pub mod deep;
pub mod text;
pub mod tokenizer;
pub mod utils;
pub mod parser;
pub mod commands;
pub mod editor;

use crate::commands::cmds::{route, texts, Cmd, Dispatch, Invocation};
use crate::parser::parser::Parser;
use crate::parser::pipe::{segment, without_pipes};
use crate::parser::redir::{command_tokens, plan_after, RedirectionPlan};
use crate::text::trimmed;
use crate::tokenizer::lex;
use vstd::prelude::*;

verus! {

/// What a line asks for.
#[derive(Debug)]
pub struct Evaluation {
    /// The redirections and the stages of the line.
    pub parser: Parser,
    /// The command of the line, with nothing captured yet.
    pub cmd: Cmd,
    /// How the command is to be run.
    pub dispatch: Dispatch,
}

/// Reads a line: its redirections, its stages, the name and the arguments of
/// its command, and how the command is to be run.
pub fn evaluate(command: String) -> (evaluation: Evaluation)
    ensures
        evaluation.parser.redir@ == plan_after(RedirectionPlan::none(), lex(trimmed(command@))),
        evaluation.parser.pipe@ == segment(command_tokens(lex(trimmed(command@)))),
        evaluation.cmd@ == Invocation::blank().assigned(
            texts(without_pipes(command_tokens(lex(trimmed(command@))))),
        ),
        evaluation.dispatch == route(
            texts(without_pipes(command_tokens(lex(trimmed(command@))))),
            segment(command_tokens(lex(trimmed(command@)))).len(),
        ),
{
    let mut parser = Parser::new();
    let cmd_toks = parser.parse(command);
    let mut cmd = Cmd::new();
    let dispatch = cmd.handler(cmd_toks, &parser);
    assert(parser.pipe@ =~= segment(command_tokens(lex(trimmed(command@)))));
    Evaluation { parser, cmd, dispatch }
}

} // verus!
