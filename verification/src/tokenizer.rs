//! Quote- and escape-aware tokenizer.
//!
//! A line is read as a sequence of Unicode scalar values by a scanner with
//! three states. The mathematical meaning of a line is `lex`, a sequence of
//! `Lexeme`s; `tokenize` computes exactly that sequence.

use crate::deep::lemma_push_deep;
use vstd::prelude::*;
use vstd::string::*;

verus! {

/// One token of a command line.
#[derive(Debug)]
pub enum Token {
    Word(String),
    /// `|`
    Pipe,
    /// `||`
    DoublePipe,
    /// `&`
    And,
    /// `&&`
    DoubleAnd,
    /// `>` and `1>`
    RedirectOut,
    /// `>>` and `1>>`
    AppendOut,
    /// `2>`
    RedirectErr,
    /// `2>>`
    AppendErr,
    /// `&>`
    RedirectBoth,
    /// `&>>`
    AppendBoth,
    /// `;`
    Semicolon,
    /// `(`
    LeftParen,
    /// `)`
    RightParen,
}

/// The mathematical value of a `Token`: a word carries its characters.
pub enum Lexeme {
    Word(Seq<char>),
    Pipe,
    DoublePipe,
    And,
    DoubleAnd,
    RedirectOut,
    AppendOut,
    RedirectErr,
    AppendErr,
    RedirectBoth,
    AppendBoth,
    Semicolon,
    LeftParen,
    RightParen,
}

impl View for Token {
    type V = Lexeme;

    open spec fn view(&self) -> Lexeme {
        match self {
            Token::Word(s) => Lexeme::Word(s@),
            Token::Pipe => Lexeme::Pipe,
            Token::DoublePipe => Lexeme::DoublePipe,
            Token::And => Lexeme::And,
            Token::DoubleAnd => Lexeme::DoubleAnd,
            Token::RedirectOut => Lexeme::RedirectOut,
            Token::AppendOut => Lexeme::AppendOut,
            Token::RedirectErr => Lexeme::RedirectErr,
            Token::AppendErr => Lexeme::AppendErr,
            Token::RedirectBoth => Lexeme::RedirectBoth,
            Token::AppendBoth => Lexeme::AppendBoth,
            Token::Semicolon => Lexeme::Semicolon,
            Token::LeftParen => Lexeme::LeftParen,
            Token::RightParen => Lexeme::RightParen,
        }
    }
}

impl DeepView for Token {
    type V = Lexeme;

    open spec fn deep_view(&self) -> Lexeme {
        self@
    }
}

impl Lexeme {
    /// The text a lexeme is written as: a word is its own text, an operator
    /// its canonical spelling.
    pub open spec fn text(self) -> Seq<char> {
        match self {
            Lexeme::Word(w) => w,
            Lexeme::Pipe => "|"@,
            Lexeme::DoublePipe => "||"@,
            Lexeme::And => "&"@,
            Lexeme::DoubleAnd => "&&"@,
            Lexeme::RedirectOut => ">"@,
            Lexeme::AppendOut => ">>"@,
            Lexeme::RedirectErr => "2>"@,
            Lexeme::AppendErr => "2>>"@,
            Lexeme::RedirectBoth => "&>"@,
            Lexeme::AppendBoth => "&>>"@,
            Lexeme::Semicolon => ";"@,
            Lexeme::LeftParen => "("@,
            Lexeme::RightParen => ")"@,
        }
    }
}

impl Clone for Token {
    fn clone(&self) -> (copy: Self)
        ensures
            copy == *self,
    {
        match self {
            Token::Word(s) => Token::Word(s.clone()),
            Token::Pipe => Token::Pipe,
            Token::DoublePipe => Token::DoublePipe,
            Token::And => Token::And,
            Token::DoubleAnd => Token::DoubleAnd,
            Token::RedirectOut => Token::RedirectOut,
            Token::AppendOut => Token::AppendOut,
            Token::RedirectErr => Token::RedirectErr,
            Token::AppendErr => Token::AppendErr,
            Token::RedirectBoth => Token::RedirectBoth,
            Token::AppendBoth => Token::AppendBoth,
            Token::Semicolon => Token::Semicolon,
            Token::LeftParen => Token::LeftParen,
            Token::RightParen => Token::RightParen,
        }
    }
}

impl PartialEq for Token {
    fn eq(&self, other: &Self) -> (equal: bool) {
        match (self, other) {
            (Token::Word(a), Token::Word(b)) => *a == *b,
            (Token::Pipe, Token::Pipe) => true,
            (Token::DoublePipe, Token::DoublePipe) => true,
            (Token::And, Token::And) => true,
            (Token::DoubleAnd, Token::DoubleAnd) => true,
            (Token::RedirectOut, Token::RedirectOut) => true,
            (Token::AppendOut, Token::AppendOut) => true,
            (Token::RedirectErr, Token::RedirectErr) => true,
            (Token::AppendErr, Token::AppendErr) => true,
            (Token::RedirectBoth, Token::RedirectBoth) => true,
            (Token::AppendBoth, Token::AppendBoth) => true,
            (Token::Semicolon, Token::Semicolon) => true,
            (Token::LeftParen, Token::LeftParen) => true,
            (Token::RightParen, Token::RightParen) => true,
            _ => false,
        }
    }
}

impl vstd::std_specs::cmp::PartialEqSpecImpl for Token {
    open spec fn obeys_eq_spec() -> bool {
        true
    }

    /// Two tokens are equal when they are the same operator or words of the
    /// same characters.
    open spec fn eq_spec(&self, other: &Self) -> bool {
        self@ == other@
    }
}

impl Token {
    /// The text of the token: the word itself, or the operator's spelling.
    pub fn to_string(&self) -> (text: String)
        ensures
            text@ == self@.text(),
    {
        match self {
            Token::Word(s) => s.clone(),
            Token::Pipe => String::from_str("|"),
            Token::DoublePipe => String::from_str("||"),
            Token::And => String::from_str("&"),
            Token::DoubleAnd => String::from_str("&&"),
            Token::RedirectOut => String::from_str(">"),
            Token::AppendOut => String::from_str(">>"),
            Token::RedirectErr => String::from_str("2>"),
            Token::AppendErr => String::from_str("2>>"),
            Token::RedirectBoth => String::from_str("&>"),
            Token::AppendBoth => String::from_str("&>>"),
            Token::Semicolon => String::from_str(";"),
            Token::LeftParen => String::from_str("("),
            Token::RightParen => String::from_str(")"),
        }
    }

    /// Whether the token is the pipe operator.
    pub fn is_pipe(&self) -> (pipe: bool)
        ensures
            pipe == (self@ is Pipe),
    {
        match self {
            Token::Pipe => true,
            _ => false,
        }
    }

    /// Whether the token is a word.
    pub fn is_word(&self) -> (word: bool)
        ensures
            word == (self@ is Word),
    {
        match self {
            Token::Word(_) => true,
            _ => false,
        }
    }
}

/// The state of the scanner between two characters.
#[derive(Debug, Clone, Copy)]
pub enum State {
    Unquoted,
    SingleQuoted,
    DoubleQuoted,
}

/// Characters that end a word outside quotes: space, tab and newline.
pub open spec fn is_blank(c: char) -> bool {
    c == ' ' || c == '\t' || c == '\n'
}

/// Characters that always begin an operator outside quotes.
pub open spec fn starts_operator(c: char) -> bool {
    c == '>' || c == '&' || c == '|' || c == ';' || c == '(' || c == ')'
}

/// Whether `s` holds the character `c` at position `i`.
pub open spec fn char_is(s: Seq<char>, i: int, c: char) -> bool {
    0 <= i < s.len() && s[i] == c
}

/// The operator that begins at position `i` of `s`, with the number of
/// characters it spans, by longest match; `None` where no operator begins.
/// The digits `1` and `2` begin an operator only directly before `>`.
pub open spec fn operator_at(s: Seq<char>, i: int) -> Option<(Lexeme, int)> {
    if char_is(s, i, '>') {
        if char_is(s, i + 1, '>') {
            Some((Lexeme::AppendOut, 2))
        } else {
            Some((Lexeme::RedirectOut, 1))
        }
    } else if char_is(s, i, '&') {
        if char_is(s, i + 1, '&') {
            Some((Lexeme::DoubleAnd, 2))
        } else if char_is(s, i + 1, '>') {
            if char_is(s, i + 2, '>') {
                Some((Lexeme::AppendBoth, 3))
            } else {
                Some((Lexeme::RedirectBoth, 2))
            }
        } else {
            Some((Lexeme::And, 1))
        }
    } else if char_is(s, i, '|') {
        if char_is(s, i + 1, '|') {
            Some((Lexeme::DoublePipe, 2))
        } else {
            Some((Lexeme::Pipe, 1))
        }
    } else if char_is(s, i, ';') {
        Some((Lexeme::Semicolon, 1))
    } else if char_is(s, i, '(') {
        Some((Lexeme::LeftParen, 1))
    } else if char_is(s, i, ')') {
        Some((Lexeme::RightParen, 1))
    } else if char_is(s, i, '1') && char_is(s, i + 1, '>') {
        if char_is(s, i + 2, '>') {
            Some((Lexeme::AppendOut, 3))
        } else {
            Some((Lexeme::RedirectOut, 2))
        }
    } else if char_is(s, i, '2') && char_is(s, i + 1, '>') {
        if char_is(s, i + 2, '>') {
            Some((Lexeme::AppendErr, 3))
        } else {
            Some((Lexeme::RedirectErr, 2))
        }
    } else {
        None
    }
}

/// Inside double quotes a backslash escapes only these characters.
pub open spec fn escapable_in_double(c: char) -> bool {
    c == '\\' || c == '"' || c == '$' || c == '`' || c == '\n'
}

/// What a pending word contributes when it is flushed: one word, or nothing
/// if it is empty.
pub open spec fn flushed(word: Seq<char>) -> Seq<Lexeme> {
    if word.len() > 0 {
        seq![Lexeme::Word(word)]
    } else {
        Seq::empty()
    }
}

/// What the scanner does at one position.
pub struct Step {
    /// The lexemes that it emits.
    pub emitted: Seq<Lexeme>,
    /// The position at which it goes on.
    pub next: int,
    /// The state in which it goes on.
    pub state: State,
    /// The pending word with which it goes on.
    pub word: Seq<char>,
}

/// What the scanner does when it stands before position `i` of `s` in state
/// `state` with the pending word `word`.
pub open spec fn step(s: Seq<char>, i: int, state: State, word: Seq<char>) -> Step {
    let c = s[i];
    let silent = Seq::<Lexeme>::empty();
    match state {
        State::Unquoted => {
            if c == '\'' {
                Step { emitted: silent, next: i + 1, state: State::SingleQuoted, word }
            } else if c == '"' {
                Step { emitted: silent, next: i + 1, state: State::DoubleQuoted, word }
            } else if c == '\\' {
                if i + 1 < s.len() {
                    Step { emitted: silent, next: i + 2, state, word: word.push(s[i + 1]) }
                } else {
                    Step { emitted: silent, next: i + 1, state, word }
                }
            } else if is_blank(c) {
                Step { emitted: flushed(word), next: i + 1, state, word: Seq::empty() }
            } else {
                match operator_at(s, i) {
                    Some((op, width)) => Step {
                        emitted: flushed(word).push(op),
                        next: i + width,
                        state,
                        word: Seq::empty(),
                    },
                    None => Step { emitted: silent, next: i + 1, state, word: word.push(c) },
                }
            }
        },
        State::SingleQuoted => {
            if c == '\'' {
                Step { emitted: silent, next: i + 1, state: State::Unquoted, word }
            } else {
                Step { emitted: silent, next: i + 1, state, word: word.push(c) }
            }
        },
        State::DoubleQuoted => {
            if c == '"' {
                Step { emitted: silent, next: i + 1, state: State::Unquoted, word }
            } else if c == '\\' {
                if i + 1 < s.len() {
                    if escapable_in_double(s[i + 1]) {
                        if s[i + 1] == '\n' {
                            Step { emitted: silent, next: i + 2, state, word }
                        } else {
                            Step { emitted: silent, next: i + 2, state, word: word.push(s[i + 1]) }
                        }
                    } else {
                        Step { emitted: silent, next: i + 1, state, word: word.push('\\') }
                    }
                } else {
                    Step { emitted: silent, next: i + 1, state, word }
                }
            } else {
                Step { emitted: silent, next: i + 1, state, word: word.push(c) }
            }
        },
    }
}

/// The lexemes that the scanner still emits when it stands before position
/// `i` of `s` in state `state` with the pending word `word`: at the end of
/// the line the pending word, before it what each step emits.
pub open spec fn scan(s: Seq<char>, i: int, state: State, word: Seq<char>) -> Seq<Lexeme>
    decreases s.len() - i,
{
    if i < 0 || i >= s.len() {
        flushed(word)
    } else {
        let here = step(s, i, state, word);
        here.emitted + scan(s, here.next, here.state, here.word)
    }
}

/// The lexemes of a line.
pub open spec fn lex(s: Seq<char>) -> Seq<Lexeme> {
    scan(s, 0, State::Unquoted, Seq::empty())
}

/// No word in `ls` is empty.
pub open spec fn words_nonempty(ls: Seq<Lexeme>) -> bool {
    forall|k: int| 0 <= k < ls.len() ==> (#[trigger] ls[k] matches Lexeme::Word(w) ==> w.len() > 0)
}

/// Every step goes on behind the position at which it stands and within the
/// line, and emits no empty word.
pub proof fn lemma_step(s: Seq<char>, i: int, state: State, word: Seq<char>)
    requires
        0 <= i < s.len(),
    ensures
        i < step(s, i, state, word).next <= s.len(),
        words_nonempty(step(s, i, state, word).emitted),
{
}

/// The scanner never emits an empty word, whatever state it starts in.
pub proof fn lemma_scan_words_nonempty(s: Seq<char>, i: int, state: State, word: Seq<char>)
    ensures
        words_nonempty(scan(s, i, state, word)),
    decreases s.len() - i,
{
    if 0 <= i < s.len() {
        let here = step(s, i, state, word);
        lemma_step(s, i, state, word);
        lemma_scan_words_nonempty(s, here.next, here.state, here.word);
    }
}

/// What the scanner does at a position depends only on the line from some
/// earlier position on.
pub proof fn lemma_step_of_suffix(s: Seq<char>, from: int, i: int, state: State, word: Seq<char>)
    requires
        0 <= from <= i < s.len(),
    ensures
        step(s.skip(from), i - from, state, word) == (Step {
            next: step(s, i, state, word).next - from,
            ..step(s, i, state, word)
        }),
{
    let tail = s.skip(from);
    assert(tail[i - from] == s[i]);
    assert forall|c: char| #[trigger] char_is(tail, i - from, c) == char_is(s, i, c) by {}
    assert forall|c: char| #[trigger] char_is(tail, i - from + 1, c) == char_is(s, i + 1, c) by {
        if i + 1 < s.len() {
            assert(tail[i - from + 1] == s[i + 1]);
        }
    }
    assert forall|c: char| #[trigger] char_is(tail, i - from + 2, c) == char_is(s, i + 2, c) by {
        if i + 2 < s.len() {
            assert(tail[i - from + 2] == s[i + 2]);
        }
    }
    assert(operator_at(tail, i - from) == operator_at(s, i));
}

/// What the scanner emits from a position on depends only on the line from
/// some earlier position on.
pub proof fn lemma_scan_of_suffix(s: Seq<char>, from: int, i: int, state: State, word: Seq<char>)
    requires
        0 <= from <= i,
        from <= s.len(),
    ensures
        scan(s.skip(from), i - from, state, word) == scan(s, i, state, word),
    decreases s.len() - i,
{
    let tail = s.skip(from);
    assert(tail.len() == s.len() - from);
    if i < s.len() {
        let here = step(s, i, state, word);
        lemma_step(s, i, state, word);
        lemma_step_of_suffix(s, from, i, state, word);
        lemma_scan_of_suffix(s, from, here.next, here.state, here.word);
        let there = step(tail, i - from, state, word);
        assert(scan(tail, i - from, state, word) == there.emitted + scan(
            tail,
            there.next,
            there.state,
            there.word,
        ));
    }
}

/// Characters that are part of a word wherever they stand outside quotes:
/// no blank, no quote, no backslash, and nothing that begins an operator.
pub open spec fn plain(c: char) -> bool {
    !is_blank(c) && c != '\'' && c != '"' && c != '\\' && !starts_operator(c)
}

/// Outside quotes the scanner takes a run of plain characters into the
/// pending word, unless `>` follows the run.
pub proof fn lemma_scan_plain_run(s: Seq<char>, i: int, count: int, word: Seq<char>)
    requires
        0 <= i,
        0 <= count,
        i + count <= s.len(),
        forall|j: int| i <= j < i + count ==> plain(#[trigger] s[j]),
        !char_is(s, i + count, '>'),
    ensures
        scan(s, i, State::Unquoted, word) == scan(
            s,
            i + count,
            State::Unquoted,
            word + s.subrange(i, i + count),
        ),
    decreases count,
{
    if count == 0 {
        assert(word + s.subrange(i, i + count) =~= word);
    } else {
        assert(plain(s[i]));
        if count > 1 {
            assert(plain(s[i + 1]));
        }
        assert(operator_at(s, i) is None);
        lemma_scan_plain_run(s, i + 1, count - 1, word.push(s[i]));
        assert(word.push(s[i]) + s.subrange(i + 1, i + count) =~= word + s.subrange(i, i + count));
    }
}

/// Inside single quotes the scanner takes every character but the quote
/// into the pending word.
pub proof fn lemma_scan_single_quoted_run(s: Seq<char>, i: int, count: int, word: Seq<char>)
    requires
        0 <= i,
        0 <= count,
        i + count <= s.len(),
        forall|j: int| i <= j < i + count ==> #[trigger] s[j] != '\'',
    ensures
        scan(s, i, State::SingleQuoted, word) == scan(
            s,
            i + count,
            State::SingleQuoted,
            word + s.subrange(i, i + count),
        ),
    decreases count,
{
    if count == 0 {
        assert(word + s.subrange(i, i + count) =~= word);
    } else {
        assert(s[i] != '\'');
        lemma_scan_single_quoted_run(s, i + 1, count - 1, word.push(s[i]));
        assert(word.push(s[i]) + s.subrange(i + 1, i + count) =~= word + s.subrange(i, i + count));
    }
}

/// A text between single quotes is one word, whatever it holds but a single
/// quote; between nothing stands no word.
pub proof fn lemma_single_quotes_keep_text(text: Seq<char>)
    requires
        forall|j: int| 0 <= j < text.len() ==> #[trigger] text[j] != '\'',
    ensures
        lex(seq!['\''] + text + seq!['\'']) == flushed(text),
{
    let s = seq!['\''] + text + seq!['\''];
    let empty = Seq::<char>::empty();
    assert(s[0] == '\'');
    assert forall|j: int| 1 <= j < 1 + text.len() implies #[trigger] s[j] != '\'' by {
        assert(s[j] == text[j - 1]);
    }
    lemma_scan_single_quoted_run(s, 1, text.len() as int, empty);
    let end = text.len() as int + 1;
    assert(empty + s.subrange(1, end) =~= text);
    assert(s[end] == '\'');
    assert(step(s, end, State::SingleQuoted, text).next == s.len());
    assert(scan(s, 0, State::Unquoted, empty) == Seq::<Lexeme>::empty() + scan(
        s,
        1,
        State::SingleQuoted,
        empty,
    ));
    assert(scan(s, end, State::SingleQuoted, text) == Seq::<Lexeme>::empty() + scan(
        s,
        end + 1,
        State::Unquoted,
        text,
    ));
    assert(Seq::<Lexeme>::empty() + flushed(text) =~= flushed(text));
}

/// Inside double quotes the scanner takes every character but the quote and
/// the backslash into the pending word.
pub proof fn lemma_scan_double_quoted_run(s: Seq<char>, i: int, count: int, word: Seq<char>)
    requires
        0 <= i,
        0 <= count,
        i + count <= s.len(),
        forall|j: int| i <= j < i + count ==> #[trigger] s[j] != '"' && s[j] != '\\',
    ensures
        scan(s, i, State::DoubleQuoted, word) == scan(
            s,
            i + count,
            State::DoubleQuoted,
            word + s.subrange(i, i + count),
        ),
    decreases count,
{
    if count == 0 {
        assert(word + s.subrange(i, i + count) =~= word);
    } else {
        assert(s[i] != '"' && s[i] != '\\');
        lemma_scan_double_quoted_run(s, i + 1, count - 1, word.push(s[i]));
        assert(word.push(s[i]) + s.subrange(i + 1, i + count) =~= word + s.subrange(i, i + count));
    }
}

/// A text between double quotes is one word, whatever it holds but a double
/// quote or a backslash; between nothing stands no word.
pub proof fn lemma_double_quotes_keep_text(text: Seq<char>)
    requires
        forall|j: int| 0 <= j < text.len() ==> #[trigger] text[j] != '"' && text[j] != '\\',
    ensures
        lex(seq!['"'] + text + seq!['"']) == flushed(text),
{
    let s = seq!['"'] + text + seq!['"'];
    let empty = Seq::<char>::empty();
    assert(s[0] == '"');
    assert forall|j: int| 1 <= j < 1 + text.len() implies #[trigger] s[j] != '"' && s[j]
        != '\\' by {
        assert(s[j] == text[j - 1]);
    }
    lemma_scan_double_quoted_run(s, 1, text.len() as int, empty);
    let end = text.len() as int + 1;
    assert(empty + s.subrange(1, end) =~= text);
    assert(s[end] == '"');
    assert(step(s, end, State::DoubleQuoted, text).next == s.len());
    assert(scan(s, 0, State::Unquoted, empty) == Seq::<Lexeme>::empty() + scan(
        s,
        1,
        State::DoubleQuoted,
        empty,
    ));
    assert(scan(s, end, State::DoubleQuoted, text) == Seq::<Lexeme>::empty() + scan(
        s,
        end + 1,
        State::Unquoted,
        text,
    ));
    assert(Seq::<Lexeme>::empty() + flushed(text) =~= flushed(text));
}

/// `String::push` appends one character.
pub assume_specification[ String::push ](s: &mut String, c: char)
    ensures
        final(s)@ == old(s)@.push(c),
;

/// Whether `ch` always begins an operator outside quotes.
pub fn is_operator_start(ch: char) -> (starts: bool)
    ensures
        starts == starts_operator(ch),
{
    ch == '>' || ch == '&' || ch == '|' || ch == ';' || ch == '(' || ch == ')'
}

fn char_at_is(chars: &Vec<char>, i: usize, c: char) -> (found: bool)
    ensures
        found == char_is(chars@, i as int, c),
{
    i < chars.len() && chars[i] == c
}

/// Reads the operator that begins at position `i`, by longest match, and
/// returns it with the number of characters it spans.
pub fn extract_operator(chars: &Vec<char>, i: usize) -> (found: Option<(Token, usize)>)
    ensures
        match found {
            Some((op, width)) => operator_at(chars@, i as int) == Some((op@, width as int)),
            None => operator_at(chars@, i as int) is None,
        },
{
    if i >= chars.len() {
        return None;
    }
    let first = chars[i];
    let second_is_gt = i < usize::MAX && char_at_is(chars, i + 1, '>');
    let third_is_gt = i < usize::MAX - 1 && char_at_is(chars, i + 2, '>');
    if first == '>' {
        if second_is_gt {
            Some((Token::AppendOut, 2))
        } else {
            Some((Token::RedirectOut, 1))
        }
    } else if first == '&' {
        if i < usize::MAX && char_at_is(chars, i + 1, '&') {
            Some((Token::DoubleAnd, 2))
        } else if second_is_gt {
            if third_is_gt {
                Some((Token::AppendBoth, 3))
            } else {
                Some((Token::RedirectBoth, 2))
            }
        } else {
            Some((Token::And, 1))
        }
    } else if first == '|' {
        if i < usize::MAX && char_at_is(chars, i + 1, '|') {
            Some((Token::DoublePipe, 2))
        } else {
            Some((Token::Pipe, 1))
        }
    } else if first == ';' {
        Some((Token::Semicolon, 1))
    } else if first == '(' {
        Some((Token::LeftParen, 1))
    } else if first == ')' {
        Some((Token::RightParen, 1))
    } else if first == '1' && second_is_gt {
        if third_is_gt {
            Some((Token::AppendOut, 3))
        } else {
            Some((Token::RedirectOut, 2))
        }
    } else if first == '2' && second_is_gt {
        if third_is_gt {
            Some((Token::AppendErr, 3))
        } else {
            Some((Token::RedirectErr, 2))
        }
    } else {
        None
    }
}

/// The characters of `input`, in order.
pub fn chars_of(input: &str) -> (chars: Vec<char>)
    ensures
        chars@ == input@,
{
    let mut chars: Vec<char> = Vec::new();
    for c in it: input.chars()
        invariant
            chars@ == it.seq().take(it.index()),
    {
        chars.push(c);
    }
    chars
}

/// Moves the pending word, if it is not empty, to the end of `tokens`.
fn flush_word(tokens: &mut Vec<Token>, word: String) -> (fresh: String)
    ensures
        final(tokens).deep_view() == old(tokens).deep_view() + flushed(word@),
        fresh@ == Seq::<char>::empty(),
{
    if word.as_str().is_empty() {
        assert(old(tokens).deep_view() + flushed(word@) =~= old(tokens).deep_view());
    } else {
        let ghost before = *tokens;
        let token = Token::Word(word);
        tokens.push(token);
        proof {
            lemma_push_deep(before, *tokens, token);
            assert(before.deep_view().push(token@) =~= before.deep_view() + flushed(word@));
        }
    }
    String::new()
}

/// Splits a line into tokens.
///
/// Outside quotes, blanks separate words, a backslash takes the next
/// character literally, and operators are read by longest match. Inside
/// single quotes every character is literal; inside double quotes a backslash
/// escapes only `\`, `"`, `$`, a backquote and a newline (an escaped newline
/// is dropped). A quote left open is closed by the end of the line. No empty
/// word is ever produced.
pub fn tokenize(input: &str) -> (tokens: Vec<Token>)
    ensures
        tokens.deep_view() == lex(input@),
        words_nonempty(tokens.deep_view()),
{
    let chars = chars_of(input);
    let n = chars.len();
    let mut tokens: Vec<Token> = Vec::new();
    let mut word = String::new();
    let mut state = State::Unquoted;
    let mut i: usize = 0;
    assert(tokens.deep_view() =~= Seq::<Lexeme>::empty());
    assert(tokens.deep_view() + lex(input@) =~= lex(input@));
    while i < n
        invariant
            chars@ == input@,
            n == chars.len(),
            i <= n,
            tokens.deep_view() + scan(chars@, i as int, state, word@) == lex(input@),
        decreases n - i,
    {
        let ch = chars[i];
        let ghost before = tokens.deep_view();
        let ghost here = step(chars@, i as int, state, word@);
        proof {
            lemma_step(chars@, i as int, state, word@);
        }
        match state {
            State::Unquoted => {
                if ch == '\'' {
                    state = State::SingleQuoted;
                    i += 1;
                } else if ch == '"' {
                    state = State::DoubleQuoted;
                    i += 1;
                } else if ch == '\\' {
                    i += 1;
                    if i < n {
                        word.push(chars[i]);
                        i += 1;
                    }
                } else if ch == ' ' || ch == '\t' || ch == '\n' {
                    word = flush_word(&mut tokens, word);
                    i += 1;
                } else {
                    match extract_operator(&chars, i) {
                        Some((op, width)) => {
                            word = flush_word(&mut tokens, word);
                            let ghost flushed_tokens = tokens;
                            tokens.push(op);
                            i += width;
                            proof {
                                lemma_push_deep(flushed_tokens, tokens, op);
                            }
                        },
                        None => {
                            word.push(ch);
                            i += 1;
                        },
                    }
                }
            },
            State::SingleQuoted => {
                if ch == '\'' {
                    state = State::Unquoted;
                    i += 1;
                } else {
                    word.push(ch);
                    i += 1;
                }
            },
            State::DoubleQuoted => {
                if ch == '"' {
                    state = State::Unquoted;
                    i += 1;
                } else if ch == '\\' {
                    i += 1;
                    if i < n {
                        let next = chars[i];
                        if next == '\\' || next == '"' || next == '$' || next == '`' || next
                            == '\n' {
                            if next != '\n' {
                                word.push(next);
                            }
                            i += 1;
                        } else {
                            word.push('\\');
                        }
                    }
                } else {
                    word.push(ch);
                    i += 1;
                }
            },
        }
        proof {
            assert(i == here.next && state == here.state && word@ == here.word);
            assert(tokens.deep_view() =~= before + here.emitted);
            assert(tokens.deep_view() + scan(chars@, i as int, state, word@) =~= before + (
            here.emitted + scan(chars@, here.next, here.state, here.word)));
        }
    }
    let _ = flush_word(&mut tokens, word);
    proof {
        lemma_scan_words_nonempty(input@, 0, State::Unquoted, Seq::empty());
    }
    tokens
}

} // verus!
