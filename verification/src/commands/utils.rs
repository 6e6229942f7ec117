//! The outputs of a command: what is printed and what is written to a file.
//!
//! Nothing is printed or written here. An `Output` says what is to be done;
//! the caller does it.

use crate::commands::cmds::Cmd;
use vstd::prelude::*;
use vstd::string::*;

verus! {

/// A stream of the terminal.
#[derive(Debug, Clone, Copy)]
pub enum Stream {
    Stdout,
    Stderr,
}

/// One output of a command.
#[derive(Debug)]
pub enum Output {
    /// Print the text to the terminal.
    Print { stream: Stream, text: String },
    /// Write the text to the file at the path. The file is created if it
    /// does not exist; it is appended to or else replaced.
    Write { path: String, append: bool, text: String },
}

/// The mathematical value of an `Output`.
pub enum Emission {
    Print { stream: Stream, text: Seq<char> },
    Write { path: Seq<char>, append: bool, text: Seq<char> },
}

impl View for Output {
    type V = Emission;

    open spec fn view(&self) -> Emission {
        match self {
            Output::Print { stream, text } => Emission::Print { stream: *stream, text: text@ },
            Output::Write { path, append, text } => Emission::Write {
                path: path@,
                append: *append,
                text: text@,
            },
        }
    }
}

impl DeepView for Output {
    type V = Emission;

    open spec fn deep_view(&self) -> Emission {
        self@
    }
}

/// The content of files, by path. A path outside the domain names no file.
pub type Files = Map<Seq<char>, Seq<char>>;

/// What the file at a path holds; `None` where the path names no file.
pub open spec fn held(files: Files, path: Seq<char>) -> Option<Seq<char>> {
    if files.dom().contains(path) {
        Some(files[path])
    } else {
        None
    }
}

/// What the file that an output is for holds once the output is carried
/// out, where it held `before` (`None`: there was no file). Printing leaves
/// it as it was. Writing makes it hold the text, behind what it held before
/// where the output appends and the file was there.
pub open spec fn written(before: Option<Seq<char>>, emission: Emission) -> Option<Seq<char>> {
    match emission {
        Emission::Print { .. } => before,
        Emission::Write { path, append, text } => match before {
            Some(content) => if append {
                Some(content + text)
            } else {
                Some(text)
            },
            None => Some(text),
        },
    }
}

/// The files once an output is carried out. Printing changes no file;
/// writing changes the file at the output's path as `written` says.
pub open spec fn carried_out(files: Files, emission: Emission) -> Files {
    match emission {
        Emission::Print { .. } => files,
        Emission::Write { path, append, text } => match written(held(files, path), emission) {
            Some(content) => files.insert(path, content),
            None => files,
        },
    }
}

/// The value of an optional text.
pub open spec fn text_view(text: Option<String>) -> Option<Seq<char>> {
    match text {
        Some(text) => Some(text@),
        None => None,
    }
}

/// Writing twice to a file without appending leaves only what was written
/// last.
pub proof fn lemma_write_twice_keeps_last(
    files: Files,
    path: Seq<char>,
    first: Seq<char>,
    second: Seq<char>,
)
    ensures
        carried_out(
            carried_out(files, Emission::Write { path, append: false, text: first }),
            Emission::Write { path, append: false, text: second },
        ) == carried_out(files, Emission::Write { path, append: false, text: second }),
        carried_out(
            carried_out(files, Emission::Write { path, append: false, text: first }),
            Emission::Write { path, append: false, text: second },
        )[path] == second,
{
    let once = carried_out(files, Emission::Write { path, append: false, text: first });
    let twice = carried_out(once, Emission::Write { path, append: false, text: second });
    assert(twice =~= carried_out(files, Emission::Write { path, append: false, text: second }));
}

/// Appending twice to a file leaves what it held before, then what was
/// written first, then what was written last.
pub proof fn lemma_append_twice_concatenates(
    files: Files,
    path: Seq<char>,
    first: Seq<char>,
    second: Seq<char>,
)
    ensures
        carried_out(
            carried_out(files, Emission::Write { path, append: true, text: first }),
            Emission::Write { path, append: true, text: second },
        )[path] == (if files.dom().contains(path) {
            files[path]
        } else {
            Seq::empty()
        }) + first + second,
        carried_out(
            carried_out(files, Emission::Write { path, append: true, text: first }),
            Emission::Write { path, append: true, text: second },
        ) == carried_out(files, Emission::Write { path, append: true, text: first + second }),
{
    let once = carried_out(files, Emission::Write { path, append: true, text: first });
    let twice = carried_out(once, Emission::Write { path, append: true, text: second });
    let held = if files.dom().contains(path) {
        files[path]
    } else {
        Seq::empty()
    };
    assert(once[path] =~= held + first);
    assert(twice[path] =~= held + first + second);
    assert(held + first + second =~= held + (first + second));
    assert(twice =~= carried_out(
        files,
        Emission::Write { path, append: true, text: first + second },
    ));
}

/// What the file that `output` is for holds once the output is carried out,
/// where it held `before` (`None`: there was no file).
pub fn content_after(before: Option<String>, output: &Output) -> (after: Option<String>)
    ensures
        text_view(after) == written(text_view(before), output@),
{
    match output {
        Output::Print { .. } => before,
        Output::Write { path, append, text } => {
            match before {
                Some(held) => {
                    if *append {
                        let mut content = held;
                        content.append(text.as_str());
                        Some(content)
                    } else {
                        Some(text.clone())
                    }
                },
                None => Some(text.clone()),
            }
        },
    }
}

/// What a stream sends to the terminal: the text, unless it is empty.
pub open spec fn printed(stream: Stream, text: Seq<char>) -> Option<Emission> {
    if text.len() > 0 {
        Some(Emission::Print { stream, text })
    } else {
        None
    }
}

/// The value of an optional output.
pub open spec fn output_view(output: Option<Output>) -> Option<Emission> {
    match output {
        Some(output) => Some(output@),
        None => None,
    }
}

/// The standard output of the command as an output to the terminal; none
/// where nothing was captured.
pub fn print_out(cmd: &Cmd) -> (output: Option<Output>)
    ensures
        output_view(output) == printed(Stream::Stdout, cmd@.stdout),
{
    if cmd.stdout.as_str().is_empty() {
        None
    } else {
        Some(Output::Print { stream: Stream::Stdout, text: cmd.stdout.clone() })
    }
}

/// The standard error of the command as an output to the terminal; none
/// where nothing was captured.
pub fn print_err(cmd: &Cmd) -> (output: Option<Output>)
    ensures
        output_view(output) == printed(Stream::Stderr, cmd@.stderr),
{
    if cmd.stderr.as_str().is_empty() {
        None
    } else {
        Some(Output::Print { stream: Stream::Stderr, text: cmd.stderr.clone() })
    }
}

/// The standard output of the command, to replace the file.
pub fn write_out(cmd: &Cmd, filename: String) -> (output: Output)
    ensures
        output@ == (Emission::Write { path: filename@, append: false, text: cmd@.stdout }),
{
    Output::Write { path: filename, append: false, text: cmd.stdout.clone() }
}

/// The standard error of the command, to replace the file.
pub fn write_err(cmd: &Cmd, filename: String) -> (output: Output)
    ensures
        output@ == (Emission::Write { path: filename@, append: false, text: cmd@.stderr }),
{
    Output::Write { path: filename, append: false, text: cmd.stderr.clone() }
}

/// The standard output of the command, to be appended to the file.
pub fn append_out(cmd: &Cmd, filename: String) -> (output: Output)
    ensures
        output@ == (Emission::Write { path: filename@, append: true, text: cmd@.stdout }),
{
    Output::Write { path: filename, append: true, text: cmd.stdout.clone() }
}

/// The standard error of the command, to be appended to the file.
pub fn append_err(cmd: &Cmd, filename: String) -> (output: Output)
    ensures
        output@ == (Emission::Write { path: filename@, append: true, text: cmd@.stderr }),
{
    Output::Write { path: filename, append: true, text: cmd.stderr.clone() }
}

} // verus!
