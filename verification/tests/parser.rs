use shell_core::parser::parser::Parser;
use shell_core::parser::pipe::{clone_tokens, Pipe};
use shell_core::parser::redir::{slot_of, Redir, Slot};
use shell_core::text::{join_words, trim};
use shell_core::tokenizer::{tokenize, Token};

fn word(text: &str) -> Token {
    Token::Word(text.to_string())
}

fn target(path: &str, append: bool) -> Option<(String, bool)> {
    Some((path.to_string(), append))
}

fn rejoin(stages: &Vec<Vec<Token>>) -> Vec<Token> {
    let mut all = Vec::new();
    for (k, stage) in stages.iter().enumerate() {
        if k > 0 {
            all.push(Token::Pipe);
        }
        all.extend(stage.iter().cloned());
    }
    all
}

#[test]
fn redirect_is_taken_out_and_recorded() {
    let mut parser = Parser::new();
    let cmd_toks = parser.parse("cmd > out.txt".to_string());
    assert_eq!(cmd_toks, vec![word("cmd")]);
    assert_eq!(parser.redir.stdout_file, target("out.txt", false));
    assert_eq!(parser.redir.stderr_file, None);
    assert_eq!(parser.redir.combined_file, None);
    assert_eq!(parser.pipe.commands, vec![vec![word("cmd")]]);
}

#[test]
fn new_redir_redirects_nothing() {
    let redir = Redir::new();
    assert_eq!(redir.stdout_file, None);
    assert_eq!(redir.stderr_file, None);
    assert_eq!(redir.combined_file, None);
}

#[test]
fn each_operator_fills_its_slot() {
    let mut redir = Redir::new();
    let rest = redir.parse(tokenize("a >> o 2> e &>> b c"));
    assert_eq!(rest, vec![word("a"), word("c")]);
    assert_eq!(redir.stdout_file, target("o", true));
    assert_eq!(redir.stderr_file, target("e", false));
    assert_eq!(redir.combined_file, target("b", true));

    let mut redir = Redir::new();
    let rest = redir.parse(tokenize("1> o 2>> e &> b"));
    assert_eq!(rest, Vec::<Token>::new());
    assert_eq!(redir.stdout_file, target("o", false));
    assert_eq!(redir.stderr_file, target("e", true));
    assert_eq!(redir.combined_file, target("b", false));
}

#[test]
fn last_redirection_of_a_stream_wins() {
    let mut redir = Redir::new();
    let rest = redir.parse(tokenize("a > one >> two"));
    assert_eq!(rest, vec![word("a")]);
    assert_eq!(redir.stdout_file, target("two", true));
    let rest = redir.parse(tokenize("b > three"));
    assert_eq!(rest, vec![word("b")]);
    assert_eq!(redir.stdout_file, target("three", false));
}

#[test]
fn operator_without_file_name_is_dropped() {
    let mut redir = Redir::new();
    assert_eq!(redir.parse(tokenize("cmd >")), vec![word("cmd")]);
    assert_eq!(redir.stdout_file, None);
    assert_eq!(redir.parse(tokenize("cmd > | x")), vec![word("cmd"), Token::Pipe, word("x")]);
    assert_eq!(redir.stdout_file, None);
    assert_eq!(redir.parse(tokenize("a 2> > f")), vec![word("a")]);
    assert_eq!(redir.stderr_file, None);
    assert_eq!(redir.stdout_file, target("f", false));
}

#[test]
fn other_tokens_pass_through_in_order() {
    let mut redir = Redir::new();
    let toks = tokenize("a | b && c ; ( d ) || e &");
    assert_eq!(redir.parse(clone_tokens(&toks)), toks);
    assert_eq!(redir.stdout_file, None);
}

#[test]
fn file_name_is_the_word_at_the_index() {
    let redir = Redir::new();
    let toks = tokenize("a > f |");
    assert_eq!(redir.get_filename(&toks, 0), Some("a".to_string()));
    assert_eq!(redir.get_filename(&toks, 1), None);
    assert_eq!(redir.get_filename(&toks, 2), Some("f".to_string()));
    assert_eq!(redir.get_filename(&toks, 3), None);
    assert_eq!(redir.get_filename(&toks, 4), None);
}

#[test]
fn slots_of_operators() {
    assert!(matches!(slot_of(&Token::RedirectOut), Some((Slot::Stdout, false))));
    assert!(matches!(slot_of(&Token::AppendOut), Some((Slot::Stdout, true))));
    assert!(matches!(slot_of(&Token::RedirectErr), Some((Slot::Stderr, false))));
    assert!(matches!(slot_of(&Token::AppendErr), Some((Slot::Stderr, true))));
    assert!(matches!(slot_of(&Token::RedirectBoth), Some((Slot::Combined, false))));
    assert!(matches!(slot_of(&Token::AppendBoth), Some((Slot::Combined, true))));
    assert!(slot_of(&Token::Pipe).is_none());
    assert!(slot_of(&word(">")).is_none());
}

#[test]
fn combined_target_stands_for_both_streams() {
    let mut redir = Redir::new();
    redir.parse(tokenize("a > o 2>> e"));
    assert_eq!(redir.target_of(Slot::Stdout), target("o", false));
    assert_eq!(redir.target_of(Slot::Stderr), target("e", true));
    assert_eq!(redir.target_of(Slot::Combined), None);
    redir.parse(tokenize("&> b"));
    assert_eq!(redir.target_of(Slot::Stdout), target("b", false));
    assert_eq!(redir.target_of(Slot::Stderr), target("b", false));
    assert_eq!(redir.target_of(Slot::Combined), target("b", false));
}

#[test]
fn set_replaces_one_target() {
    let mut redir = Redir::new();
    redir.set(Slot::Stderr, "e".to_string(), true);
    assert_eq!(redir.stderr_file, target("e", true));
    assert_eq!(redir.stdout_file, None);
    let copy = redir.clone();
    assert_eq!(copy.stderr_file, target("e", true));
}

#[test]
fn pipes_separate_stages() {
    let mut pipe = Pipe::new();
    let flat = pipe.parse(tokenize("a b | c | d e f"));
    assert_eq!(pipe.commands, vec![
        vec![word("a"), word("b")],
        vec![word("c")],
        vec![word("d"), word("e"), word("f")]
    ]);
    assert_eq!(flat, vec![word("a"), word("b"), word("c"), word("d"), word("e"), word("f")]);
}

#[test]
fn line_without_pipe_is_one_stage() {
    let mut pipe = Pipe::new();
    let flat = pipe.parse(tokenize("ls -l"));
    assert_eq!(pipe.commands, vec![vec![word("ls"), word("-l")]]);
    assert_eq!(flat, vec![word("ls"), word("-l")]);
}

#[test]
fn empty_stages_are_dropped() {
    let mut pipe = Pipe::new();
    pipe.parse(tokenize("| a | | b |"));
    assert_eq!(pipe.commands, vec![vec![word("a")], vec![word("b")]]);
    let mut pipe = Pipe::new();
    assert_eq!(pipe.parse(tokenize("| |")), Vec::<Token>::new());
    assert_eq!(pipe.commands, Vec::<Vec<Token>>::new());
    let mut pipe = Pipe::new();
    pipe.parse(Vec::new());
    assert_eq!(pipe.commands, Vec::<Vec<Token>>::new());
}

#[test]
fn double_pipe_is_no_separator() {
    let mut pipe = Pipe::new();
    pipe.parse(tokenize("a || b"));
    assert_eq!(pipe.commands, vec![vec![word("a"), Token::DoublePipe, word("b")]]);
}

#[test]
fn stages_are_appended() {
    let mut pipe = Pipe::new();
    pipe.parse(tokenize("a | b"));
    pipe.parse(tokenize("c"));
    assert_eq!(pipe.commands, vec![vec![word("a")], vec![word("b")], vec![word("c")]]);
    assert_eq!(pipe.clone().commands, pipe.commands);
}

#[test]
fn stages_joined_by_pipes_give_the_tokens_back() {
    for line in ["a", "a b | c | d e", "x|y", "a && b | c ; d", ""] {
        let toks = tokenize(line);
        let mut pipe = Pipe::new();
        pipe.parse(clone_tokens(&toks));
        assert_eq!(rejoin(&pipe.commands), toks);
    }
}

#[test]
fn stages_keep_the_order_of_all_tokens_but_pipes() {
    for line in ["| a | | b c |", "||| x", "a |", "| | |"] {
        let toks = tokenize(line);
        let mut pipe = Pipe::new();
        let flat = pipe.parse(clone_tokens(&toks));
        let kept: Vec<Token> = toks.into_iter().filter(|t| !t.is_pipe()).collect();
        let stages: Vec<Token> = pipe.commands.iter().flatten().cloned().collect();
        assert_eq!(stages, kept);
        assert_eq!(flat, kept);
        assert!(pipe.commands.iter().all(|stage| !stage.is_empty()));
    }
}

#[test]
fn redirections_are_taken_out_before_the_stages() {
    let mut parser = Parser::new();
    let cmd_toks = parser.parse("  cat < x > out | sort 2>> err | uniq  \n".to_string());
    assert_eq!(cmd_toks, vec![word("cat"), word("<"), word("x"), word("sort"), word("uniq")]);
    assert_eq!(parser.pipe.commands, vec![
        vec![word("cat"), word("<"), word("x")],
        vec![word("sort")],
        vec![word("uniq")]
    ]);
    assert_eq!(parser.redir.stdout_file, target("out", false));
    assert_eq!(parser.redir.stderr_file, target("err", true));
}

#[test]
fn empty_line_parses_to_nothing() {
    let mut parser = Parser::new();
    assert_eq!(parser.parse(" \t ".to_string()), Vec::<Token>::new());
    assert_eq!(parser.pipe.commands, Vec::<Vec<Token>>::new());
    assert_eq!(parser.redir.stdout_file, None);
    let copy = parser.clone();
    assert_eq!(copy.pipe.commands, Vec::<Vec<Token>>::new());
}

#[test]
fn trailing_newline_is_trimmed_before_tokenizing() {
    let mut parser = Parser::new();
    assert_eq!(parser.parse("echo 'a\n".to_string()), vec![word("echo"), word("a")]);
    let mut parser = Parser::new();
    assert_eq!(parser.parse("echo a\\\n".to_string()), vec![word("echo"), word("a")]);
}

#[test]
fn trim_drops_blanks_at_both_ends() {
    assert_eq!(trim("  a b \t\n"), "a b");
    assert_eq!(trim("a"), "a");
    assert_eq!(trim(""), "");
    assert_eq!(trim(" \n\t "), "");
    assert_eq!(trim("\ra\r"), "\ra\r");
}

#[test]
fn words_joined_by_spaces() {
    assert_eq!(join_words(&vec![]), "");
    assert_eq!(join_words(&vec!["a".to_string()]), "a");
    assert_eq!(join_words(&vec!["a".to_string(), "".to_string(), "b c".to_string()]), "a  b c");
}

#[test]
fn redirections_are_read_part_by_part() {
    for (first, second) in [("a > f b", "c 2> g"), ("a >", "| b"), ("> f", "x"), ("", "a > o"), ("a", "")] {
        let mut whole = Redir::new();
        let all = whole.parse(tokenize(&format!("{} {}", first, second)));
        let mut parts = Redir::new();
        let mut rest = parts.parse(tokenize(first));
        rest.extend(parts.parse(tokenize(second)));
        assert_eq!(all, rest);
        assert_eq!(whole.stdout_file, parts.stdout_file);
        assert_eq!(whole.stderr_file, parts.stderr_file);
        assert_eq!(whole.combined_file, parts.combined_file);
    }
}

#[test]
fn command_tokens_hold_no_redirection_operator() {
    for line in ["a > b > c 2> 2>> x &> | &>> y >", "> > > >", "a 1> 2> b"] {
        let mut redir = Redir::new();
        for token in redir.parse(tokenize(line)) {
            assert!(slot_of(&token).is_none());
        }
    }
}

#[test]
fn words_are_parted_at_the_first_pipe() {
    let words = |list: &[&str]| -> Vec<String> { list.iter().map(|w| w.to_string()).collect() };
    let mut pipe = Pipe::new();
    assert_eq!(pipe.parse_pipes(words(&["ls", "-l", "|", "wc", "-l"])), words(&["ls", "-l"]));
    assert_eq!(pipe.commands, vec![vec![word("wc"), word("-l")]]);

    assert_eq!(pipe.parse_pipes(words(&["a", "|", "b", "|", "c"])), words(&["a"]));
    assert_eq!(pipe.commands, vec![
        vec![word("wc"), word("-l")],
        vec![word("b"), word("|"), word("c")]
    ]);

    let mut pipe = Pipe::new();
    assert_eq!(pipe.parse_pipes(words(&["a", "b"])), words(&["a", "b"]));
    assert_eq!(pipe.parse_pipes(words(&["a", "|"])), words(&["a"]));
    assert_eq!(pipe.parse_pipes(words(&["|"])), Vec::<String>::new());
    assert_eq!(pipe.parse_pipes(Vec::new()), Vec::<String>::new());
    assert_eq!(pipe.commands, Vec::<Vec<Token>>::new());

    assert_eq!(pipe.parse_pipes(words(&["|", "x"])), Vec::<String>::new());
    assert_eq!(pipe.commands, vec![vec![word("x")]]);
}
