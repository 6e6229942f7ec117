//! A command: its name, its arguments and the output captured from it.

use crate::commands::builtins::{builtin_names, is_builtin};
use crate::commands::utils::{Emission, Output, Stream};
use crate::deep::{lemma_empty_deep, lemma_push_deep};
use crate::parser::parser::Parser;
use crate::tokenizer::{Lexeme, Token};
use crate::utils::{check_ext_cmd, resolve, Candidate};
use vstd::prelude::*;
use vstd::string::*;

verus! {

/// A command with the output captured from it.
#[derive(Debug)]
pub struct Cmd {
    pub name: String,
    pub args: Vec<String>,
    pub stdout: String,
    pub stderr: String,
}

/// The mathematical value of a `Cmd`.
pub struct Invocation {
    pub name: Seq<char>,
    pub args: Seq<Seq<char>>,
    pub stdout: Seq<char>,
    pub stderr: Seq<char>,
}

impl View for Cmd {
    type V = Invocation;

    open spec fn view(&self) -> Invocation {
        Invocation {
            name: self.name@,
            args: self.args.deep_view(),
            stdout: self.stdout@,
            stderr: self.stderr@,
        }
    }
}

/// How a command is to be run.
#[derive(Debug, Clone, Copy)]
pub enum Dispatch {
    /// There is no command.
    Nothing,
    /// A built-in command, run in the shell itself.
    Builtin,
    /// A program, looked up on the search path and run with its output
    /// captured.
    External,
    /// A pipeline of two or more stages.
    Pipeline,
}

/// What is to be done with a program that a line names.
#[derive(Debug)]
pub enum Launch {
    /// Run the file at this path.
    Run(String),
    /// The program was not found: give this report out and start nothing.
    Missing(Output),
}

/// The report of a program that was not found on the search path.
pub open spec fn missing_report(name: Seq<char>) -> Emission {
    Emission::Print { stream: Stream::Stderr, text: name + ": command not found\n"@ }
}

/// The report of a program that was found and could not be started.
pub open spec fn failure_report(error: Seq<char>) -> Emission {
    Emission::Print { stream: Stream::Stderr, text: "Failed to execute command: "@ + error + "\n"@ }
}

/// The texts of a token sequence.
pub open spec fn texts(toks: Seq<Lexeme>) -> Seq<Seq<char>> {
    Seq::new(toks.len(), |k: int| toks[k].text())
}

/// How the command of the given words is run, on a line of so many stages: a
/// line of fewer than two stages runs its command alone, built in or not.
pub open spec fn route(words: Seq<Seq<char>>, stages: nat) -> Dispatch {
    if words.len() == 0 {
        Dispatch::Nothing
    } else if stages < 2 {
        if builtin_names().contains(words[0]) {
            Dispatch::Builtin
        } else {
            Dispatch::External
        }
    } else {
        Dispatch::Pipeline
    }
}

impl Invocation {
    /// The invocation without name, arguments or output.
    pub open spec fn blank() -> Invocation {
        Invocation {
            name: Seq::empty(),
            args: Seq::empty(),
            stdout: Seq::empty(),
            stderr: Seq::empty(),
        }
    }

    /// The invocation with the first word as its name and the others as its
    /// arguments; unchanged where there is no word.
    pub open spec fn assigned(self, words: Seq<Seq<char>>) -> Invocation {
        if words.len() == 0 {
            self
        } else {
            Invocation { name: words[0], args: words.skip(1), ..self }
        }
    }

    /// The invocation with the output of a program captured: the standard
    /// output always, the standard error where there is any.
    pub open spec fn captured(self, stdout: Seq<char>, stderr: Seq<char>) -> Invocation {
        Invocation {
            stdout,
            stderr: if stderr.len() > 0 {
                stderr
            } else {
                self.stderr
            },
            ..self
        }
    }
}

/// The texts of the tokens, in order.
pub fn to_strings(toks: &Vec<Token>) -> (words: Vec<String>)
    ensures
        words.deep_view() == texts(toks.deep_view()),
{
    let mut words: Vec<String> = Vec::new();
    let mut k: usize = 0;
    proof {
        lemma_empty_deep(words);
    }
    while k < toks.len()
        invariant
            k <= toks.len(),
            words.deep_view() == texts(toks.deep_view()).take(k as int),
        decreases toks.len() - k,
    {
        let ghost before = words;
        let text = toks[k].to_string();
        words.push(text);
        proof {
            lemma_push_deep(before, words, text);
            assert(words.deep_view() =~= texts(toks.deep_view()).take(k + 1));
        }
        k += 1;
    }
    assert(texts(toks.deep_view()).take(k as int) =~= texts(toks.deep_view()));
    words
}

/// The words behind the first.
fn rest_of(words: &Vec<String>) -> (rest: Vec<String>)
    requires
        words.len() > 0,
    ensures
        rest.deep_view() == words.deep_view().skip(1),
{
    let mut rest: Vec<String> = Vec::new();
    let mut k: usize = 1;
    proof {
        lemma_empty_deep(rest);
        assert(rest.deep_view() =~= words.deep_view().subrange(1, 1));
    }
    while k < words.len()
        invariant
            1 <= k <= words.len(),
            rest.deep_view() == words.deep_view().subrange(1, k as int),
        decreases words.len() - k,
    {
        let ghost before = rest;
        let word = words[k].clone();
        rest.push(word);
        proof {
            lemma_push_deep(before, rest, word);
            assert(rest.deep_view() =~= words.deep_view().subrange(1, k + 1));
        }
        k += 1;
    }
    assert(words.deep_view().subrange(1, k as int) =~= words.deep_view().skip(1));
    rest
}

impl Cmd {
    /// A command without name, arguments or output.
    pub fn new() -> (cmd: Self)
        ensures
            cmd@ == Invocation::blank(),
    {
        let cmd = Cmd {
            name: String::new(),
            args: Vec::new(),
            stdout: String::new(),
            stderr: String::new(),
        };
        proof {
            lemma_empty_deep(cmd.args);
        }
        cmd
    }

    /// Takes the text of the first token as the name and the texts of the
    /// others as the arguments. Without a token nothing changes.
    pub fn assign(&mut self, cmd_toks: &Vec<Token>)
        ensures
            final(self)@ == old(self)@.assigned(texts(cmd_toks.deep_view())),
    {
        let words = to_strings(cmd_toks);
        if words.len() > 0 {
            self.name = words[0].clone();
            self.args = rest_of(&words);
        }
    }

    /// Takes name and arguments from the command tokens of a line and says
    /// how the command is to be run: not at all where there is no token; as
    /// a pipeline where the line has two stages or more; else as a built-in
    /// command or as a program. Whether a program is run or reported as
    /// missing, `launch` says once the search path has been looked at.
    pub fn handler(&mut self, cmd_toks: Vec<Token>, parser: &Parser) -> (dispatch: Dispatch)
        ensures
            final(self)@ == old(self)@.assigned(texts(cmd_toks.deep_view())),
            dispatch == route(texts(cmd_toks.deep_view()), parser.pipe@.len()),
    {
        self.assign(&cmd_toks);
        if cmd_toks.len() == 0 {
            return Dispatch::Nothing;
        }
        if parser.pipe.commands.len() < 2 {
            if is_builtin(self.name.clone()) {
                Dispatch::Builtin
            } else {
                Dispatch::External
            }
        } else {
            Dispatch::Pipeline
        }
    }

    /// Says what is to be done with the program that this command names,
    /// given what the file system says of the name in each directory of the
    /// search path, in order. The program is run from the first candidate
    /// that is a file and may be executed. Where there is none, nothing is
    /// started and nothing captured: the report that the command was not
    /// found goes to the error stream.
    pub fn launch(&self, candidates: &Vec<Candidate>) -> (next: Launch)
        ensures
            match resolve(candidates.deep_view()) {
                Some(path) => next matches Launch::Run(file) && file@ == path,
                None => next matches Launch::Missing(report) && report@ == missing_report(
                    self@.name,
                ),
            },
    {
        let (_, full_path) = check_ext_cmd(candidates);
        match full_path {
            Some(path) => Launch::Run(path),
            None => {
                let mut text = self.name.clone();
                text.append(": command not found\n");
                Launch::Missing(Output::Print { stream: Stream::Stderr, text })
            },
        }
    }

    /// Captures the output of a program that was run for this command: the
    /// standard output replaces what was captured, the standard error does so
    /// only where it is not empty.
    pub fn handle_external(&mut self, stdout: String, stderr: String)
        ensures
            final(self)@ == old(self)@.captured(stdout@, stderr@),
    {
        self.stdout = stdout;
        if !stderr.as_str().is_empty() {
            self.stderr = stderr;
        }
    }
}

/// The report of a program that could not be started, with the text of the
/// error; it goes to the error stream, and the shell goes on.
pub fn launch_failure(error: &String) -> (report: Output)
    ensures
        report@ == failure_report(error@),
{
    let mut text = String::from_str("Failed to execute command: ");
    text.append(error.as_str());
    text.append("\n");
    Output::Print { stream: Stream::Stderr, text }
}

/// The names of the built-in commands.
pub fn get_builtins() -> (names: Vec<&'static str>)
    ensures
        names.deep_view() == builtin_names(),
{
    let mut names: Vec<&'static str> = Vec::new();
    names.push("echo");
    names.push("exit");
    names.push("type");
    names.push("pwd");
    names.push("cd");
    assert(names.deep_view() =~= builtin_names());
    names
}

} // verus!
