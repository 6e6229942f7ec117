//! The built-in commands.
//!
//! A built-in command computes the text of its standard output and standard
//! error from its arguments and from what the caller read of the process:
//! the working directory, the home directory, the candidates of the search
//! path. What it wants done to the process it returns as an `Effect`.

use crate::commands::cmds::{get_builtins, Cmd, Invocation};
use crate::text::{join_words, spaced};
use crate::utils::{check_ext_cmd, resolve, Candidate};
use vstd::prelude::*;
use vstd::string::*;

verus! {

/// What a built-in command reads of the process and the file system.
#[derive(Debug)]
pub struct Context {
    /// The working directory, or the text of the error of asking for it.
    pub cwd: Result<String, String>,
    /// The value of `HOME`, or why it could not be had.
    pub home: Result<String, HomeError>,
    /// The candidates for the first argument in the directories of the
    /// search path, in order.
    pub candidates: Vec<Candidate>,
    /// Whether the first argument names an existing path.
    pub target_exists: bool,
}

/// Why the value of `HOME` could not be had.
#[derive(Debug)]
pub enum HomeError {
    /// The variable is not set.
    NotPresent,
    /// The variable holds what is no text; with it comes the value as it
    /// is shown.
    NotUnicode(String),
}

/// What a built-in command wants done to the process.
#[derive(Debug)]
pub enum Effect {
    /// Nothing.
    Nothing,
    /// End the process with status 0.
    Exit,
    /// Change the working directory to this path.
    ChangeDir(String),
    /// The command is not a built-in one.
    Unknown,
}

/// The mathematical value of an `Effect`.
pub enum Change {
    Nothing,
    Exit,
    ChangeDir(Seq<char>),
    Unknown,
}

impl View for Effect {
    type V = Change;

    open spec fn view(&self) -> Change {
        match self {
            Effect::Nothing => Change::Nothing,
            Effect::Exit => Change::Exit,
            Effect::ChangeDir(path) => Change::ChangeDir(path@),
            Effect::Unknown => Change::Unknown,
        }
    }
}

/// The names of the built-in commands.
pub open spec fn builtin_names() -> Seq<Seq<char>> {
    seq!["echo"@, "exit"@, "type"@, "pwd"@, "cd"@]
}

/// The value of a text that was read, or of the error's text.
pub open spec fn read_view(read: Result<String, String>) -> Result<Seq<char>, Seq<char>> {
    match read {
        Ok(text) => Ok(text@),
        Err(text) => Err(text@),
    }
}

/// The value of `HOME`, or the text that says why it could not be had.
pub open spec fn home_view(home: Result<String, HomeError>) -> Result<Seq<char>, Seq<char>> {
    match home {
        Ok(path) => Ok(path@),
        Err(HomeError::NotPresent) => Err("environment variable not found"@),
        Err(HomeError::NotUnicode(shown)) => Err(
            "environment variable was not unicode: "@ + shown@,
        ),
    }
}

/// What `echo` leaves: the arguments, with a space between each two, and a
/// newline.
pub open spec fn after_echo(cmd: Invocation) -> Invocation {
    Invocation { name: "echo"@, stdout: spaced(cmd.args).push('\n'), ..cmd }
}

/// What `type` leaves. Of a built-in command it says so; of any other word
/// it gives the path that the search path resolves it to, or says on the
/// standard error that it was not found. Without an argument it says
/// nothing.
pub open spec fn after_type(cmd: Invocation, resolved: Option<Seq<char>>) -> Invocation {
    let named = Invocation { name: "type"@, ..cmd };
    if cmd.args.len() == 0 {
        named
    } else if builtin_names().contains(cmd.args[0]) {
        Invocation { stdout: cmd.args[0] + " is a shell builtin\n"@, ..named }
    } else {
        match resolved {
            Some(path) => Invocation { stdout: cmd.args[0] + " is "@ + path + "\n"@, ..named },
            None => Invocation { stderr: cmd.args[0] + " not found\n"@, ..named },
        }
    }
}

/// What `pwd` leaves: the working directory and a newline, or on the
/// standard error why it could not be had.
pub open spec fn after_pwd(cmd: Invocation, cwd: Result<Seq<char>, Seq<char>>) -> Invocation {
    let named = Invocation { name: "pwd"@, ..cmd };
    match cwd {
        Ok(path) => Invocation { stdout: path.push('\n'), ..named },
        Err(error) => Invocation { stderr: "Failed to cwd: "@ + error + "\n"@, ..named },
    }
}

/// What `cd` leaves. It never writes to the standard output. With `~` it
/// goes to the home directory, or says on the standard error why that could
/// not be had; with a path that does not exist it says so.
pub open spec fn after_cd(
    cmd: Invocation,
    home: Result<Seq<char>, Seq<char>>,
    target_exists: bool,
) -> Invocation {
    let named = Invocation { name: "cd"@, ..cmd };
    if cmd.args.len() == 0 {
        named
    } else if cmd.args[0] == "~"@ {
        match home {
            Ok(_) => named,
            Err(error) => Invocation { stderr: error, ..named },
        }
    } else if target_exists {
        named
    } else {
        Invocation {
            stderr: "cd: "@ + cmd.args[0] + ": No such file or directory\n"@,
            ..named
        }
    }
}

/// Where `cd` wants the working directory changed to, if anywhere.
pub open spec fn cd_change(
    cmd: Invocation,
    home: Result<Seq<char>, Seq<char>>,
    target_exists: bool,
) -> Change {
    if cmd.args.len() == 0 {
        Change::Nothing
    } else if cmd.args[0] == "~"@ {
        match home {
            Ok(path) => Change::ChangeDir(path),
            Err(_) => Change::Nothing,
        }
    } else if target_exists {
        Change::ChangeDir(cmd.args[0])
    } else {
        Change::Nothing
    }
}

/// What is left of a command when the working directory could not be
/// changed to `path`: the failure on the standard error.
pub open spec fn after_cd_failure(cmd: Invocation, path: Seq<char>, error: Seq<char>) -> Invocation {
    Invocation { stderr: "cd: "@ + path + ": "@ + error + "\n"@, ..cmd }
}

/// Whether `cmd` names a built-in command.
pub fn is_builtin(cmd: String) -> (builtin: bool)
    ensures
        builtin == builtin_names().contains(cmd@),
{
    let names = get_builtins();
    let mut k: usize = 0;
    while k < names.len()
        invariant
            k <= names.len(),
            names.deep_view() == builtin_names(),
            forall|j: int| 0 <= j < k ==> builtin_names()[j] != cmd@,
        decreases names.len() - k,
    {
        assert(names.deep_view()[k as int] == names@[k as int]@);
        if String::from_str(names[k]) == cmd {
            assert(builtin_names()[k as int] == cmd@);
            return true;
        }
        k += 1;
    }
    false
}

/// Whether `text` is the same text as `literal`.
fn is_text(text: &String, literal: &str) -> (same: bool)
    ensures
        same == (text@ == literal@),
{
    String::from_str(literal) == *text
}

/// `echo`: the arguments, with a space between each two, and a newline.
pub fn echo(cmd: &mut Cmd)
    ensures
        final(cmd)@ == after_echo(old(cmd)@),
{
    cmd.name = String::from_str("echo");
    let mut text = join_words(&cmd.args);
    text.push('\n');
    cmd.stdout = text;
}

/// `type`: says what a word names.
pub fn types(cmd: &mut Cmd, candidates: &Vec<Candidate>)
    ensures
        final(cmd)@ == after_type(old(cmd)@, resolve(candidates.deep_view())),
{
    cmd.name = String::from_str("type");
    if cmd.args.len() > 0 {
        let word = cmd.args[0].clone();
        assert(cmd.args.deep_view()[0] == word@);
        if is_builtin(word.clone()) {
            let mut text = word;
            text.append(" is a shell builtin\n");
            cmd.stdout = text;
        } else {
            let (_, full_path) = check_ext_cmd(candidates);
            match full_path {
                Some(path) => {
                    let mut text = word;
                    text.append(" is ");
                    text.append(path.as_str());
                    text.append("\n");
                    cmd.stdout = text;
                },
                None => {
                    let mut text = word;
                    text.append(" not found\n");
                    cmd.stderr = text;
                },
            }
        }
    }
}

/// `pwd`: the working directory.
pub fn pwd(cmd: &mut Cmd, cwd: &Result<String, String>)
    ensures
        final(cmd)@ == after_pwd(old(cmd)@, read_view(*cwd)),
{
    cmd.name = String::from_str("pwd");
    match cwd {
        Ok(path) => {
            let mut text = path.clone();
            text.push('\n');
            cmd.stdout = text;
        },
        Err(error) => {
            let mut text = String::from_str("Failed to cwd: ");
            text.append(error.as_str());
            text.append("\n");
            cmd.stderr = text;
        },
    }
}

/// The text that says why the value of `HOME` could not be had.
pub fn home_error_text(error: &HomeError) -> (text: String)
    ensures
        home_view(Err(*error)) == Err::<Seq<char>, Seq<char>>(text@),
        text@.len() > 0,
{
    proof {
        reveal_strlit("environment variable not found");
        reveal_strlit("environment variable was not unicode: ");
    }
    match error {
        HomeError::NotPresent => String::from_str("environment variable not found"),
        HomeError::NotUnicode(shown) => {
            let mut text = String::from_str("environment variable was not unicode: ");
            text.append(shown.as_str());
            text
        },
    }
}

/// `cd`: asks for the working directory to be changed.
pub fn cd(cmd: &mut Cmd, home: &Result<String, HomeError>, target_exists: bool) -> (effect: Effect)
    ensures
        final(cmd)@ == after_cd(old(cmd)@, home_view(*home), target_exists),
        effect@ == cd_change(old(cmd)@, home_view(*home), target_exists),
        old(cmd)@.args.len() > 0 && old(cmd)@.args[0] == "~"@ && home is Err
            ==> final(cmd)@.stderr.len() > 0,
{
    cmd.name = String::from_str("cd");
    if cmd.args.len() > 0 {
        let dir = cmd.args[0].clone();
        assert(cmd.args.deep_view()[0] == dir@);
        if is_text(&dir, "~") {
            match home {
                Ok(path) => Effect::ChangeDir(path.clone()),
                Err(error) => {
                    cmd.stderr = home_error_text(error);
                    Effect::Nothing
                },
            }
        } else if target_exists {
            Effect::ChangeDir(dir)
        } else {
            let mut text = String::from_str("cd: ");
            text.append(dir.as_str());
            text.append(": No such file or directory\n");
            cmd.stderr = text;
            Effect::Nothing
        }
    } else {
        Effect::Nothing
    }
}

/// Takes note that the working directory could not be changed to `path`,
/// as `cd` had asked, with the text of the error. The failure is reported
/// on the standard error of the command; the working directory is as it
/// was, and the shell goes on.
pub fn cd_failed(cmd: &mut Cmd, path: &String, error: &String)
    ensures
        final(cmd)@ == after_cd_failure(old(cmd)@, path@, error@),
        final(cmd)@.stderr.len() > 0,
{
    let mut text = String::from_str("cd: ");
    text.append(path.as_str());
    text.append(": ");
    text.append(error.as_str());
    text.append("\n");
    proof {
        reveal_strlit("cd: ");
    }
    cmd.stderr = text;
}

/// What the built-in command named `cmd.name` leaves of `cmd`.
pub open spec fn after_builtin(cmd: Invocation, context: Context) -> Invocation {
    if cmd.name == "exit"@ {
        cmd
    } else if cmd.name == "echo"@ {
        after_echo(cmd)
    } else if cmd.name == "type"@ {
        after_type(cmd, resolve(context.candidates.deep_view()))
    } else if cmd.name == "pwd"@ {
        after_pwd(cmd, read_view(context.cwd))
    } else if cmd.name == "cd"@ {
        after_cd(cmd, home_view(context.home), context.target_exists)
    } else {
        cmd
    }
}

/// What the built-in command named `cmd.name` wants done to the process.
pub open spec fn builtin_change(cmd: Invocation, context: Context) -> Change {
    if cmd.name == "exit"@ {
        Change::Exit
    } else if cmd.name == "echo"@ || cmd.name == "type"@ || cmd.name == "pwd"@ {
        Change::Nothing
    } else if cmd.name == "cd"@ {
        cd_change(cmd, home_view(context.home), context.target_exists)
    } else {
        Change::Unknown
    }
}

/// Runs the built-in command that `cmd` names: captures its output in `cmd`
/// and returns what it wants done to the process. `exit` captures nothing
/// and asks for the end of the process; a name that is no built-in command
/// changes nothing.
pub fn handle_builtins(cmd: &mut Cmd, context: &Context) -> (effect: Effect)
    ensures
        final(cmd)@ == after_builtin(old(cmd)@, *context),
        effect@ == builtin_change(old(cmd)@, *context),
{
    if is_text(&cmd.name, "exit") {
        Effect::Exit
    } else if is_text(&cmd.name, "echo") {
        echo(cmd);
        Effect::Nothing
    } else if is_text(&cmd.name, "type") {
        types(cmd, &context.candidates);
        Effect::Nothing
    } else if is_text(&cmd.name, "pwd") {
        pwd(cmd, &context.cwd);
        Effect::Nothing
    } else if is_text(&cmd.name, "cd") {
        cd(cmd, &context.home, context.target_exists)
    } else {
        Effect::Unknown
    }
}

} // verus!
