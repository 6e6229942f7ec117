use shell_core::tokenizer::{chars_of, extract_operator, is_operator_start, tokenize, Token};

fn word(text: &str) -> Token {
    Token::Word(text.to_string())
}

#[test]
fn quotes_and_escapes_make_three_words() {
    let tokens = tokenize("echo 'a b' \"c\\\"d\"");
    assert_eq!(tokens, vec![word("echo"), word("a b"), word("c\"d")]);
}

#[test]
fn empty_line_has_no_tokens() {
    assert_eq!(tokenize(""), Vec::<Token>::new());
    assert_eq!(tokenize("   \t \n"), Vec::<Token>::new());
}

#[test]
fn blanks_separate_words() {
    assert_eq!(tokenize("ls\t-l\n/tmp  x"), vec![word("ls"), word("-l"), word("/tmp"), word("x")]);
}

#[test]
fn carriage_return_is_part_of_a_word() {
    assert_eq!(tokenize("ls\r"), vec![word("ls\r")]);
}

#[test]
fn redirect_between_words() {
    assert_eq!(tokenize("cmd > out.txt"), vec![word("cmd"), Token::RedirectOut, word("out.txt")]);
}

#[test]
fn operators_need_no_blanks() {
    assert_eq!(tokenize("a>b"), vec![word("a"), Token::RedirectOut, word("b")]);
    assert_eq!(tokenize("a|b"), vec![word("a"), Token::Pipe, word("b")]);
    assert_eq!(tokenize("(a;b)"), vec![
        Token::LeftParen,
        word("a"),
        Token::Semicolon,
        word("b"),
        Token::RightParen
    ]);
}

#[test]
fn longest_operator_wins() {
    assert_eq!(tokenize(">>"), vec![Token::AppendOut]);
    assert_eq!(tokenize(">"), vec![Token::RedirectOut]);
    assert_eq!(tokenize("&>>"), vec![Token::AppendBoth]);
    assert_eq!(tokenize("&>"), vec![Token::RedirectBoth]);
    assert_eq!(tokenize("&&"), vec![Token::DoubleAnd]);
    assert_eq!(tokenize("&"), vec![Token::And]);
    assert_eq!(tokenize("||"), vec![Token::DoublePipe]);
    assert_eq!(tokenize("|"), vec![Token::Pipe]);
}

#[test]
fn operators_are_read_one_after_the_other() {
    assert_eq!(tokenize(">>>"), vec![Token::AppendOut, Token::RedirectOut]);
    assert_eq!(tokenize("|||"), vec![Token::DoublePipe, Token::Pipe]);
    assert_eq!(tokenize("&&&"), vec![Token::DoubleAnd, Token::And]);
    assert_eq!(tokenize("&>>>"), vec![Token::AppendBoth, Token::RedirectOut]);
    assert_eq!(tokenize("&|"), vec![Token::And, Token::Pipe]);
}

#[test]
fn descriptor_redirections() {
    assert_eq!(tokenize("a 1> f"), vec![word("a"), Token::RedirectOut, word("f")]);
    assert_eq!(tokenize("a 1>> f"), vec![word("a"), Token::AppendOut, word("f")]);
    assert_eq!(tokenize("a 2> f"), vec![word("a"), Token::RedirectErr, word("f")]);
    assert_eq!(tokenize("a 2>> f"), vec![word("a"), Token::AppendErr, word("f")]);
}

#[test]
fn digit_before_redirect_ends_the_word() {
    assert_eq!(tokenize("echo1>f"), vec![word("echo"), Token::RedirectOut, word("f")]);
    assert_eq!(tokenize("x2>>f"), vec![word("x"), Token::AppendErr, word("f")]);
}

#[test]
fn other_digits_are_word_characters() {
    assert_eq!(tokenize("a1 2b 12 3>f"), vec![
        word("a1"),
        word("2b"),
        word("12"),
        word("3"),
        Token::RedirectOut,
        word("f")
    ]);
    assert_eq!(tokenize("1"), vec![word("1")]);
    assert_eq!(tokenize("2"), vec![word("2")]);
}

#[test]
fn backslash_outside_quotes_takes_next_character() {
    assert_eq!(tokenize("a\\ b"), vec![word("a b")]);
    assert_eq!(tokenize("\\|"), vec![word("|")]);
    assert_eq!(tokenize("\\'x"), vec![word("'x")]);
    assert_eq!(tokenize("a\\\nb"), vec![word("a\nb")]);
}

#[test]
fn backslash_at_the_end_is_dropped() {
    assert_eq!(tokenize("ab\\"), vec![word("ab")]);
    assert_eq!(tokenize("\"ab\\"), vec![word("ab")]);
    assert_eq!(tokenize("\\"), Vec::<Token>::new());
}

#[test]
fn single_quotes_keep_everything() {
    assert_eq!(tokenize("'a\\b \"c\" | > $x'"), vec![word("a\\b \"c\" | > $x")]);
}

#[test]
fn double_quotes_escape_five_characters() {
    assert_eq!(tokenize("\"a\\\\b\""), vec![word("a\\b")]);
    assert_eq!(tokenize("\"a\\\"b\""), vec![word("a\"b")]);
    assert_eq!(tokenize("\"a\\$b\""), vec![word("a$b")]);
    assert_eq!(tokenize("\"a\\`b\""), vec![word("a`b")]);
    assert_eq!(tokenize("\"a\\\nb\""), vec![word("ab")]);
}

#[test]
fn double_quotes_keep_other_backslashes() {
    assert_eq!(tokenize("\"a\\nb\""), vec![word("a\\nb")]);
    assert_eq!(tokenize("\"a\\'b\""), vec![word("a\\'b")]);
    assert_eq!(tokenize("\"a\\ b\""), vec![word("a\\ b")]);
}

#[test]
fn quoted_operator_is_a_word() {
    assert_eq!(tokenize("echo '|'"), vec![word("echo"), word("|")]);
    assert_eq!(tokenize("echo \">\""), vec![word("echo"), word(">")]);
    assert_eq!(tokenize("a'>'b"), vec![word("a>b")]);
}

#[test]
fn quotes_join_with_their_neighbours() {
    assert_eq!(tokenize("a'b c'\"d e\"f"), vec![word("ab cd ef")]);
}

#[test]
fn empty_quotes_make_no_word() {
    assert_eq!(tokenize("''"), Vec::<Token>::new());
    assert_eq!(tokenize("echo \"\" ''"), vec![word("echo")]);
}

#[test]
fn open_quote_is_closed_by_the_end() {
    assert_eq!(tokenize("'abc"), vec![word("abc")]);
    assert_eq!(tokenize("echo \"a b"), vec![word("echo"), word("a b")]);
}

#[test]
fn no_word_is_empty() {
    for line in ["", "a  b", "''", "x '' y", "> >", "a\\", "\"\"|''"] {
        for token in tokenize(line) {
            if let Token::Word(text) = token {
                assert!(!text.is_empty());
            }
        }
    }
}

#[test]
fn words_beyond_ascii() {
    assert_eq!(tokenize("écho 'ünï cödé' 日本"), vec![word("écho"), word("ünï cödé"), word("日本")]);
}

#[test]
fn texts_of_tokens() {
    assert_eq!(word("abc").to_string(), "abc");
    assert_eq!(Token::Pipe.to_string(), "|");
    assert_eq!(Token::DoublePipe.to_string(), "||");
    assert_eq!(Token::And.to_string(), "&");
    assert_eq!(Token::DoubleAnd.to_string(), "&&");
    assert_eq!(Token::RedirectOut.to_string(), ">");
    assert_eq!(Token::AppendOut.to_string(), ">>");
    assert_eq!(Token::RedirectErr.to_string(), "2>");
    assert_eq!(Token::AppendErr.to_string(), "2>>");
    assert_eq!(Token::RedirectBoth.to_string(), "&>");
    assert_eq!(Token::AppendBoth.to_string(), "&>>");
    assert_eq!(Token::Semicolon.to_string(), ";");
    assert_eq!(Token::LeftParen.to_string(), "(");
    assert_eq!(Token::RightParen.to_string(), ")");
}

#[test]
fn token_equality_and_clone() {
    assert_eq!(word("a"), word("a"));
    assert_ne!(word("a"), word("b"));
    assert_ne!(word("|"), Token::Pipe);
    assert_ne!(Token::Pipe, Token::DoublePipe);
    let token = word("x y");
    assert_eq!(token.clone(), token);
    assert!(token.is_word());
    assert!(!token.is_pipe());
    assert!(Token::Pipe.is_pipe());
    assert!(!Token::Pipe.is_word());
}

#[test]
fn operator_start_characters() {
    for ch in ['>', '&', '|', ';', '(', ')'] {
        assert!(is_operator_start(ch));
    }
    for ch in ['<', '1', '2', 'a', ' ', '\'', '"', '\\'] {
        assert!(!is_operator_start(ch));
    }
}

#[test]
fn operator_at_a_position() {
    let chars = chars_of("a&>>b 2>x 1 >");
    assert_eq!(extract_operator(&chars, 0), None);
    assert_eq!(extract_operator(&chars, 1), Some((Token::AppendBoth, 3)));
    assert_eq!(extract_operator(&chars, 2), Some((Token::AppendOut, 2)));
    assert_eq!(extract_operator(&chars, 3), Some((Token::RedirectOut, 1)));
    assert_eq!(extract_operator(&chars, 6), Some((Token::RedirectErr, 2)));
    assert_eq!(extract_operator(&chars, 10), None);
    assert_eq!(extract_operator(&chars, 12), Some((Token::RedirectOut, 1)));
    assert_eq!(extract_operator(&chars, 13), None);
    assert_eq!(extract_operator(&chars, usize::MAX), None);
}

#[test]
fn plain_words_joined_by_spaces_come_back() {
    let words: Vec<String> = ["ls", "-l", "/tmp/x", "a=b", "1", "2", "x1", "日本", "#"]
        .iter()
        .map(|w| w.to_string())
        .collect();
    let line = words.join(" ");
    let expected: Vec<Token> = words.iter().map(|w| Token::Word(w.clone())).collect();
    assert_eq!(tokenize(&line), expected);
}

#[test]
fn text_between_quotes_is_one_word() {
    for text in ["a b", " ", "x|y>z", "\\\"", "$HOME `x`", "1>", "\t\n"] {
        assert_eq!(tokenize(&format!("'{}'", text)), vec![word(text)]);
    }
    for text in ["a b", " ", "x|y>z", "it's", "1>", "'"] {
        assert_eq!(tokenize(&format!("\"{}\"", text)), vec![word(text)]);
    }
}

#[test]
fn characters_of_a_line() {
    assert_eq!(chars_of("aé日"), vec!['a', 'é', '日']);
    assert_eq!(chars_of(""), Vec::<char>::new());
}
