use shell_core::commands::builtins::{
    cd, cd_failed, echo, handle_builtins, home_error_text, is_builtin, pwd, types, Context,
    Effect, HomeError,
};
use shell_core::commands::cmds::{
    get_builtins, launch_failure, to_strings, Cmd, Dispatch, Launch,
};
use shell_core::commands::handlers::run_builtin;
use shell_core::commands::utils::{Output, Stream};
use shell_core::evaluate;
use shell_core::parser::parser::Parser;
use shell_core::tokenizer::tokenize;
use shell_core::utils::{check_ext_cmd, is_exec, Candidate};

fn command(name: &str, args: &[&str]) -> Cmd {
    let mut cmd = Cmd::new();
    cmd.name = name.to_string();
    cmd.args = args.iter().map(|a| a.to_string()).collect();
    cmd
}

fn candidate(path: &str, is_file: bool, mode: Option<u32>) -> Candidate {
    Candidate { path: path.to_string(), is_file, mode }
}

fn context() -> Context {
    Context {
        cwd: Ok("/work/dir".to_string()),
        home: Ok("/home/me".to_string()),
        candidates: Vec::new(),
        target_exists: false,
    }
}

#[test]
fn new_command_is_blank() {
    let cmd = Cmd::new();
    assert_eq!(cmd.name, "");
    assert_eq!(cmd.args, Vec::<String>::new());
    assert_eq!(cmd.stdout, "");
    assert_eq!(cmd.stderr, "");
}

#[test]
fn echo_without_arguments_is_a_newline() {
    let mut cmd = command("echo", &[]);
    echo(&mut cmd);
    assert_eq!(cmd.stdout, "\n");
    assert_eq!(cmd.stderr, "");
    assert_eq!(cmd.name, "echo");
}

#[test]
fn echo_joins_arguments_with_spaces() {
    let mut cmd = command("echo", &["a", "b"]);
    echo(&mut cmd);
    assert_eq!(cmd.stdout, "a b\n");
    let mut cmd = command("echo", &["one"]);
    echo(&mut cmd);
    assert_eq!(cmd.stdout, "one\n");
    let mut cmd = command("echo", &["a b", "", "c"]);
    echo(&mut cmd);
    assert_eq!(cmd.stdout, "a b  c\n");
}

#[test]
fn the_five_builtins() {
    assert_eq!(get_builtins(), vec!["echo", "exit", "type", "pwd", "cd"]);
    for name in ["echo", "exit", "type", "pwd", "cd"] {
        assert!(is_builtin(name.to_string()));
    }
    for name in ["", "ls", "Echo", "echo ", "cat", "types"] {
        assert!(!is_builtin(name.to_string()));
    }
}

#[test]
fn type_of_a_builtin() {
    let mut cmd = command("type", &["echo"]);
    types(&mut cmd, &vec![candidate("/bin/echo", true, Some(0o755))]);
    assert_eq!(cmd.stdout, "echo is a shell builtin\n");
    assert_eq!(cmd.stderr, "");
    assert_eq!(cmd.name, "type");
}

#[test]
fn type_of_a_program_on_the_path() {
    let mut cmd = command("type", &["ls", "ignored"]);
    let candidates = vec![
        candidate("/usr/local/bin/ls", false, None),
        candidate("/usr/bin/ls", true, Some(0o755)),
        candidate("/bin/ls", true, Some(0o755)),
    ];
    types(&mut cmd, &candidates);
    assert_eq!(cmd.stdout, "ls is /usr/bin/ls\n");
    assert_eq!(cmd.stderr, "");
}

#[test]
fn type_of_an_unknown_word() {
    let mut cmd = command("type", &["nope"]);
    types(&mut cmd, &vec![candidate("/bin/nope", true, Some(0o644))]);
    assert_eq!(cmd.stdout, "");
    assert_eq!(cmd.stderr, "nope not found\n");
}

#[test]
fn type_without_argument_says_nothing() {
    let mut cmd = command("x", &[]);
    types(&mut cmd, &Vec::new());
    assert_eq!(cmd.name, "type");
    assert_eq!(cmd.stdout, "");
    assert_eq!(cmd.stderr, "");
}

#[test]
fn pwd_prints_the_working_directory() {
    let mut cmd = command("pwd", &[]);
    pwd(&mut cmd, &Ok("/work/dir".to_string()));
    assert_eq!(cmd.stdout, "/work/dir\n");
    assert_eq!(cmd.stderr, "");
    assert_eq!(cmd.name, "pwd");
}

#[test]
fn pwd_reports_a_failure() {
    let mut cmd = command("pwd", &[]);
    pwd(&mut cmd, &Err("No such file or directory (os error 2)".to_string()));
    assert_eq!(cmd.stdout, "");
    assert_eq!(cmd.stderr, "Failed to cwd: No such file or directory (os error 2)\n");
}

#[test]
fn cd_to_a_missing_directory_changes_nothing() {
    let mut cmd = command("cd", &["nonexistent_dir"]);
    let effect = cd(&mut cmd, &Ok("/home/me".to_string()), false);
    assert!(matches!(effect, Effect::Nothing));
    assert_eq!(cmd.stderr, "cd: nonexistent_dir: No such file or directory\n");
    assert_eq!(cmd.stdout, "");
}

#[test]
fn cd_to_an_existing_directory() {
    let mut cmd = command("cd", &["/tmp", "more"]);
    let effect = cd(&mut cmd, &Ok("/home/me".to_string()), true);
    assert!(matches!(effect, Effect::ChangeDir(path) if path == "/tmp"));
    assert_eq!(cmd.stderr, "");
    assert_eq!(cmd.stdout, "");
    assert_eq!(cmd.name, "cd");
}

#[test]
fn cd_home() {
    let mut cmd = command("cd", &["~"]);
    let effect = cd(&mut cmd, &Ok("/home/me".to_string()), false);
    assert!(matches!(effect, Effect::ChangeDir(path) if path == "/home/me"));
    assert_eq!(cmd.stderr, "");
}

#[test]
fn cd_home_without_home() {
    let mut cmd = command("cd", &["~"]);
    let effect = cd(&mut cmd, &Err(HomeError::NotPresent), true);
    assert!(matches!(effect, Effect::Nothing));
    assert_eq!(cmd.stderr, "environment variable not found");
    assert_eq!(cmd.stdout, "");
    let mut cmd = command("cd", &["~"]);
    let effect = cd(&mut cmd, &Err(HomeError::NotUnicode("\"fo\\x80o\"".to_string())), true);
    assert!(matches!(effect, Effect::Nothing));
    assert_eq!(cmd.stderr, "environment variable was not unicode: \"fo\\x80o\"");
    assert_eq!(home_error_text(&HomeError::NotPresent), "environment variable not found");
}

#[test]
fn cd_without_argument_does_nothing() {
    let mut cmd = command("cd", &[]);
    let effect = cd(&mut cmd, &Ok("/home/me".to_string()), true);
    assert!(matches!(effect, Effect::Nothing));
    assert_eq!(cmd.stderr, "");
    assert_eq!(cmd.stdout, "");
}

#[test]
fn builtins_are_run_by_name() {
    let mut ctx = context();
    ctx.candidates = vec![candidate("/bin/cat", true, Some(0o755))];
    ctx.target_exists = true;

    let mut cmd = command("echo", &["hi"]);
    assert!(matches!(handle_builtins(&mut cmd, &ctx), Effect::Nothing));
    assert_eq!(cmd.stdout, "hi\n");

    let mut cmd = command("type", &["cat"]);
    assert!(matches!(handle_builtins(&mut cmd, &ctx), Effect::Nothing));
    assert_eq!(cmd.stdout, "cat is /bin/cat\n");

    let mut cmd = command("pwd", &[]);
    assert!(matches!(handle_builtins(&mut cmd, &ctx), Effect::Nothing));
    assert_eq!(cmd.stdout, "/work/dir\n");

    let mut cmd = command("cd", &["sub"]);
    assert!(matches!(handle_builtins(&mut cmd, &ctx), Effect::ChangeDir(path) if path == "sub"));
    assert_eq!(cmd.stdout, "");
}

#[test]
fn exit_asks_for_the_end_of_the_process() {
    let mut cmd = command("exit", &["3"]);
    assert!(matches!(handle_builtins(&mut cmd, &context()), Effect::Exit));
    assert_eq!(cmd.stdout, "");
    assert_eq!(cmd.stderr, "");
}

#[test]
fn other_names_are_unknown() {
    let mut cmd = command("ls", &["-l"]);
    assert!(matches!(handle_builtins(&mut cmd, &context()), Effect::Unknown));
    assert_eq!(cmd.name, "ls");
    assert_eq!(cmd.args, vec!["-l".to_string()]);
    assert_eq!(cmd.stdout, "");
    assert_eq!(cmd.stderr, "");
}

#[test]
fn execute_bits() {
    assert!(is_exec(Some(0o755)));
    assert!(is_exec(Some(0o100)));
    assert!(is_exec(Some(0o010)));
    assert!(is_exec(Some(0o001)));
    assert!(is_exec(Some(0o100644 | 0o001)));
    assert!(!is_exec(Some(0o644)));
    assert!(!is_exec(Some(0o666)));
    assert!(!is_exec(Some(0)));
    assert!(!is_exec(None));
}

#[test]
fn first_executable_file_is_found() {
    let candidates = vec![
        candidate("/a/x", false, Some(0o755)),
        candidate("/b/x", true, Some(0o644)),
        candidate("/c/x", true, None),
        candidate("/d/x", true, Some(0o700)),
        candidate("/e/x", true, Some(0o755)),
    ];
    assert_eq!(check_ext_cmd(&candidates), (true, Some("/d/x".to_string())));
}

#[test]
fn nothing_is_found_among_unusable_candidates() {
    let candidates = vec![candidate("/a/x", false, Some(0o755)), candidate("/b/x", true, None)];
    assert_eq!(check_ext_cmd(&candidates), (false, None));
    assert_eq!(check_ext_cmd(&Vec::new()), (false, None));
}

#[test]
fn handler_takes_name_and_arguments() {
    let mut parser = Parser::new();
    let cmd_toks = parser.parse("ls -l '/my dir'".to_string());
    let mut cmd = Cmd::new();
    let dispatch = cmd.handler(cmd_toks, &parser);
    assert!(matches!(dispatch, Dispatch::External));
    assert_eq!(cmd.name, "ls");
    assert_eq!(cmd.args, vec!["-l".to_string(), "/my dir".to_string()]);
}

#[test]
fn handler_tells_builtins_programs_and_pipelines_apart() {
    let mut parser = Parser::new();
    let cmd_toks = parser.parse("echo hi > f".to_string());
    let mut cmd = Cmd::new();
    assert!(matches!(cmd.handler(cmd_toks, &parser), Dispatch::Builtin));
    assert_eq!(cmd.args, vec!["hi".to_string()]);

    let mut parser = Parser::new();
    let cmd_toks = parser.parse("echo hi | cat".to_string());
    let mut cmd = Cmd::new();
    assert!(matches!(cmd.handler(cmd_toks, &parser), Dispatch::Pipeline));
    assert_eq!(cmd.name, "echo");
    assert_eq!(cmd.args, vec!["hi".to_string(), "cat".to_string()]);

    let mut parser = Parser::new();
    let cmd_toks = parser.parse("   ".to_string());
    let mut cmd = Cmd::new();
    cmd.name = "old".to_string();
    assert!(matches!(cmd.handler(cmd_toks, &parser), Dispatch::Nothing));
    assert_eq!(cmd.name, "old");
}

#[test]
fn operators_keep_their_spelling_as_arguments() {
    let mut parser = Parser::new();
    let cmd_toks = parser.parse("a && b ; c".to_string());
    let mut cmd = Cmd::new();
    assert!(matches!(cmd.handler(cmd_toks, &parser), Dispatch::External));
    assert_eq!(cmd.name, "a");
    assert_eq!(cmd.args, vec!["&&".to_string(), "b".to_string(), ";".to_string(), "c".to_string()]);
    assert_eq!(to_strings(&tokenize("x 2>> y")), vec!["x".to_string(), "2>>".to_string(), "y".to_string()]);
}

#[test]
fn assign_keeps_output() {
    let mut cmd = Cmd::new();
    cmd.stdout = "out".to_string();
    cmd.assign(&tokenize("pwd -P"));
    assert_eq!(cmd.name, "pwd");
    assert_eq!(cmd.args, vec!["-P".to_string()]);
    assert_eq!(cmd.stdout, "out");
    cmd.assign(&Vec::new());
    assert_eq!(cmd.name, "pwd");
}

#[test]
fn captured_output_of_a_program() {
    let mut cmd = command("ls", &[]);
    cmd.stderr = "before".to_string();
    cmd.handle_external("files\n".to_string(), String::new());
    assert_eq!(cmd.stdout, "files\n");
    assert_eq!(cmd.stderr, "before");
    cmd.handle_external(String::new(), "oops\n".to_string());
    assert_eq!(cmd.stdout, "");
    assert_eq!(cmd.stderr, "oops\n");
}

#[test]
fn a_line_is_evaluated() {
    let evaluation = evaluate("  type ls 2> err \n".to_string());
    assert!(matches!(evaluation.dispatch, Dispatch::Builtin));
    assert_eq!(evaluation.cmd.name, "type");
    assert_eq!(evaluation.cmd.args, vec!["ls".to_string()]);
    assert_eq!(evaluation.parser.redir.stderr_file, Some(("err".to_string(), false)));
    assert_eq!(evaluation.parser.pipe.commands.len(), 1);

    let evaluation = evaluate("a | b | c".to_string());
    assert!(matches!(evaluation.dispatch, Dispatch::Pipeline));
    assert_eq!(evaluation.parser.pipe.commands.len(), 3);

    let evaluation = evaluate("".to_string());
    assert!(matches!(evaluation.dispatch, Dispatch::Nothing));
    assert_eq!(evaluation.cmd.name, "");
}

#[test]
fn unknown_command_is_reported_and_not_started() {
    let evaluation = evaluate("nosuchprogram -x".to_string());
    assert!(matches!(evaluation.dispatch, Dispatch::External));
    let cmd = evaluation.cmd;
    let candidates = vec![
        candidate("/usr/bin/nosuchprogram", false, None),
        candidate("/bin/nosuchprogram", true, Some(0o644)),
    ];
    match cmd.launch(&candidates) {
        Launch::Missing(Output::Print { stream: Stream::Stderr, text }) => {
            assert_eq!(text, "nosuchprogram: command not found\n");
        }
        other => panic!("unexpected {:?}", other),
    }
    assert_eq!(cmd.stdout, "");
    assert_eq!(cmd.stderr, "");
    assert!(matches!(cmd.launch(&Vec::new()), Launch::Missing(_)));
}

#[test]
fn known_command_is_run_from_the_first_usable_candidate() {
    let cmd = command("ls", &["-l"]);
    let candidates = vec![
        candidate("/opt/bin/ls", true, Some(0o644)),
        candidate("/usr/bin/ls", true, Some(0o755)),
        candidate("/bin/ls", true, Some(0o755)),
    ];
    assert!(matches!(cmd.launch(&candidates), Launch::Run(path) if path == "/usr/bin/ls"));
}

#[test]
fn program_that_cannot_be_started_is_reported() {
    match launch_failure(&"Permission denied (os error 13)".to_string()) {
        Output::Print { stream: Stream::Stderr, text } => {
            assert_eq!(text, "Failed to execute command: Permission denied (os error 13)\n");
        }
        other => panic!("unexpected {:?}", other),
    }
}

#[test]
fn cd_that_fails_is_reported_on_stderr() {
    let mut cmd = command("cd", &["/root/secret"]);
    let effect = cd(&mut cmd, &Ok("/home/me".to_string()), true);
    assert!(matches!(&effect, Effect::ChangeDir(path) if path == "/root/secret"));
    assert_eq!(cmd.stderr, "");
    cd_failed(&mut cmd, &"/root/secret".to_string(), &"Permission denied (os error 13)".to_string());
    assert_eq!(cmd.stderr, "cd: /root/secret: Permission denied (os error 13)\n");
    assert_eq!(cmd.stdout, "");
    assert_eq!(cmd.name, "cd");
    assert_eq!(cmd.args, vec!["/root/secret".to_string()]);
}

#[test]
fn builtin_is_run_and_its_output_sent() {
    let mut parser = Parser::new();
    let cmd_toks = parser.parse("echo hi there > out.txt".to_string());
    let mut cmd = Cmd::new();
    assert!(matches!(cmd.handler(cmd_toks, &parser), Dispatch::Builtin));
    let (effect, outputs) = run_builtin(&mut cmd, &parser, &context());
    assert!(matches!(effect, Effect::Nothing));
    assert_eq!(cmd.stdout, "hi there\n");
    assert_eq!(outputs.len(), 1);
    assert!(matches!(&outputs[0], Output::Write { path, append: false, text }
        if path == "out.txt" && text == "hi there\n"));

    let mut parser = Parser::new();
    let cmd_toks = parser.parse("cd nowhere".to_string());
    let mut cmd = Cmd::new();
    cmd.handler(cmd_toks, &parser);
    let (effect, outputs) = run_builtin(&mut cmd, &parser, &context());
    assert!(matches!(effect, Effect::Nothing));
    assert_eq!(outputs.len(), 1);
    assert!(matches!(&outputs[0], Output::Print { stream: Stream::Stderr, text }
        if text == "cd: nowhere: No such file or directory\n"));
}
