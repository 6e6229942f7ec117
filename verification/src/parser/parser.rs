//! The parser of one line: tokens, then redirections, then stages.

use crate::parser::pipe::{lemma_without_pipes, segment, without_pipes, Pipe};
use crate::parser::redir::{
    command_tokens, lemma_command_tokens_come_from, lemma_command_tokens_hold_no_redirection,
    plan_after, redirection, Redir,
};
use crate::text::{trim, trimmed};
use crate::tokenizer::{lemma_scan_words_nonempty, lex, tokenize, Lexeme, State, Token};
use vstd::prelude::*;

verus! {

/// What a line asks for: where the output goes and which stages run.
#[derive(Debug)]
pub struct Parser {
    pub redir: Redir,
    pub pipe: Pipe,
}

/// The command tokens that a line is parsed to hold neither a pipe nor a
/// redirection operator, and no empty word.
pub proof fn lemma_parsed_tokens(line: Seq<char>)
    ensures
        forall|k: int|
            #![trigger without_pipes(command_tokens(lex(line)))[k]]
            0 <= k < without_pipes(command_tokens(lex(line))).len() ==> {
                let token = without_pipes(command_tokens(lex(line)))[k];
                &&& !(token is Pipe)
                &&& redirection(token) is None
                &&& token matches Lexeme::Word(text) ==> text.len() > 0
            },
{
    let lexemes = lex(line);
    let commands = command_tokens(lexemes);
    let flat = without_pipes(commands);
    lemma_scan_words_nonempty(line, 0, State::Unquoted, Seq::empty());
    lemma_command_tokens_hold_no_redirection(lexemes);
    lemma_command_tokens_come_from(lexemes);
    lemma_without_pipes(commands);
    assert forall|k: int| 0 <= k < flat.len() implies {
        let token = #[trigger] flat[k];
        &&& !(token is Pipe)
        &&& redirection(token) is None
        &&& token matches Lexeme::Word(text) ==> text.len() > 0
    } by {
        let token = flat[k];
        assert(commands.contains(token));
        let at = choose|at: int| 0 <= at < commands.len() && commands[at] == token;
        assert(redirection(commands[at]) is None);
        assert(lexemes.contains(commands[at]));
        let origin = choose|origin: int| 0 <= origin < lexemes.len() && lexemes[origin] == token;
        assert(lexemes[origin] == token);
    }
}

impl Clone for Parser {
    fn clone(&self) -> (copy: Self)
        ensures
            copy.redir@ == self.redir@,
            copy.pipe@ == self.pipe@,
    {
        Parser { redir: self.redir.clone(), pipe: self.pipe.clone() }
    }
}

impl Parser {
    /// A parser that has read nothing: no redirection, no stage.
    pub fn new() -> (parser: Self)
        ensures
            parser.redir@ == crate::parser::redir::RedirectionPlan::none(),
            parser.pipe@.len() == 0,
    {
        Parser { redir: Redir::new(), pipe: Pipe::new() }
    }

    /// Reads one line. The line is trimmed and split into tokens; the
    /// redirections are taken out and recorded; what is left is segmented
    /// into stages, which are appended to the pipeline. Returns the command
    /// tokens of the line without the pipes, in their order.
    pub fn parse(&mut self, cmd: String) -> (cmd_toks: Vec<Token>)
        ensures
            final(self).redir@ == plan_after(old(self).redir@, lex(trimmed(cmd@))),
            final(self).pipe@ == old(self).pipe@ + segment(command_tokens(lex(trimmed(cmd@)))),
            cmd_toks.deep_view() == without_pipes(command_tokens(lex(trimmed(cmd@)))),
    {
        let line = trim(cmd.as_str());
        let toks: Vec<Token> = tokenize(line.as_str());
        if toks.len() == 0 {
            proof {
                crate::deep::lemma_empty_deep(toks);
                assert(old(self).pipe@ + segment(Seq::empty()) =~= old(self).pipe@);
            }
            return toks;
        }
        let rest = self.redir.parse(toks);
        self.pipe.parse(rest)
    }
}

} // verus!
