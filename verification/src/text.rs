//! Text helpers: trimming blanks, joining words.

use crate::tokenizer::{
    chars_of, flushed, is_blank, lemma_scan_of_suffix, lemma_scan_plain_run, lex, plain, scan,
    step, Lexeme, State,
};
use vstd::prelude::*;
use vstd::string::*;

verus! {

/// `s` without the blanks at its start.
pub open spec fn drop_leading_blanks(s: Seq<char>) -> Seq<char>
    decreases s.len(),
{
    if s.len() > 0 && is_blank(s[0]) {
        drop_leading_blanks(s.drop_first())
    } else {
        s
    }
}

/// `s` without the blanks at its end.
pub open spec fn drop_trailing_blanks(s: Seq<char>) -> Seq<char>
    decreases s.len(),
{
    if s.len() > 0 && is_blank(s.last()) {
        drop_trailing_blanks(s.drop_last())
    } else {
        s
    }
}

/// `s` without the blanks at its start and at its end.
pub open spec fn trimmed(s: Seq<char>) -> Seq<char> {
    drop_trailing_blanks(drop_leading_blanks(s))
}

/// The words of `words`, with one space between each two of them.
pub open spec fn spaced(words: Seq<Seq<char>>) -> Seq<char>
    decreases words.len(),
{
    if words.len() == 0 {
        Seq::empty()
    } else if words.len() == 1 {
        words[0]
    } else {
        spaced(words.drop_last()) + seq![' '] + words.last()
    }
}

/// What is left without the leading blanks is the text behind a run of
/// blanks, and does not begin with a blank.
pub proof fn lemma_drop_leading_blanks(s: Seq<char>)
    ensures
        exists|count: int|
            0 <= count <= s.len() && #[trigger] s.skip(count) == drop_leading_blanks(s) && forall|
                j: int,
            | 0 <= j < count ==> is_blank(#[trigger] s[j]),
        drop_leading_blanks(s).len() > 0 ==> !is_blank(drop_leading_blanks(s)[0]),
    decreases s.len(),
{
    if s.len() > 0 && is_blank(s[0]) {
        let rest = s.drop_first();
        lemma_drop_leading_blanks(rest);
        let count = choose|count: int|
            0 <= count <= rest.len() && #[trigger] rest.skip(count) == drop_leading_blanks(rest)
                && forall|j: int| 0 <= j < count ==> is_blank(#[trigger] rest[j]);
        assert(s.skip(count + 1) =~= rest.skip(count));
        assert forall|j: int| 0 <= j < count + 1 implies is_blank(#[trigger] s[j]) by {
            if j > 0 {
                assert(s[j] == rest[j - 1]);
            }
        }
    } else {
        assert(s.skip(0) =~= s);
    }
}

/// What is left without the trailing blanks is the text before a run of
/// blanks, and does not end with a blank.
pub proof fn lemma_drop_trailing_blanks(s: Seq<char>)
    ensures
        exists|count: int|
            0 <= count <= s.len() && #[trigger] s.take(count) == drop_trailing_blanks(s) && forall|
                j: int,
            | count <= j < s.len() ==> is_blank(#[trigger] s[j]),
        drop_trailing_blanks(s).len() > 0 ==> !is_blank(drop_trailing_blanks(s).last()),
    decreases s.len(),
{
    if s.len() > 0 && is_blank(s.last()) {
        let front = s.drop_last();
        lemma_drop_trailing_blanks(front);
        let count = choose|count: int|
            0 <= count <= front.len() && #[trigger] front.take(count) == drop_trailing_blanks(
                front,
            ) && forall|j: int| count <= j < front.len() ==> is_blank(#[trigger] front[j]);
        assert(s.take(count) =~= front.take(count));
        assert forall|j: int| count <= j < s.len() implies is_blank(#[trigger] s[j]) by {
            if j < front.len() {
                assert(s[j] == front[j]);
            }
        }
    } else {
        assert(s.take(s.len() as int) =~= s);
    }
}

/// A trimmed text neither begins nor ends with a blank, and the text it
/// was trimmed from is blanks, the trimmed text, and blanks.
pub proof fn lemma_trimmed(s: Seq<char>)
    ensures
        exists|from: int, to: int|
            0 <= from <= to <= s.len() && #[trigger] s.subrange(from, to) == trimmed(s) && (forall|
                j: int,
            | 0 <= j < from ==> is_blank(#[trigger] s[j])) && (forall|j: int|
                to <= j < s.len() ==> is_blank(#[trigger] s[j])),
        trimmed(s).len() > 0 ==> !is_blank(trimmed(s)[0]) && !is_blank(trimmed(s).last()),
{
    lemma_drop_leading_blanks(s);
    let from = choose|count: int|
        0 <= count <= s.len() && #[trigger] s.skip(count) == drop_leading_blanks(s) && forall|
            j: int,
        | 0 <= j < count ==> is_blank(#[trigger] s[j]);
    let body = s.skip(from);
    lemma_drop_trailing_blanks(body);
    let kept = choose|count: int|
        0 <= count <= body.len() && #[trigger] body.take(count) == drop_trailing_blanks(body)
            && forall|j: int| count <= j < body.len() ==> is_blank(#[trigger] body[j]);
    let to = from + kept;
    assert(s.subrange(from, to) =~= body.take(kept));
    assert forall|j: int| to <= j < s.len() implies is_blank(#[trigger] s[j]) by {
        assert(s[j] == body[j - from]);
    }
    if trimmed(s).len() > 0 {
        assert(trimmed(s)[0] == body[0]);
        assert(body.len() > 0);
    }
}

/// Every word holds a character, and only plain ones.
pub open spec fn plain_words(words: Seq<Seq<char>>) -> bool {
    forall|k: int|
        0 <= k < words.len() ==> (#[trigger] words[k]).len() > 0 && forall|j: int|
            0 <= j < words[k].len() ==> plain(#[trigger] words[k][j])
}

/// Each word as a lexeme.
pub open spec fn as_words(words: Seq<Seq<char>>) -> Seq<Lexeme> {
    Seq::new(words.len(), |k: int| Lexeme::Word(words[k]))
}

/// Of two words or more, the first stands at the front, a space behind it.
pub proof fn lemma_spaced_front(words: Seq<Seq<char>>)
    requires
        words.len() >= 2,
    ensures
        spaced(words) == words[0] + seq![' '] + spaced(words.drop_first()),
    decreases words.len(),
{
    let rest = words.drop_first();
    if words.len() == 2 {
        assert(words.drop_last().len() == 1);
        assert(spaced(words.drop_last()) == words[0]);
        assert(spaced(rest) == words[1]);
    } else {
        lemma_spaced_front(words.drop_last());
        assert(words.drop_last().drop_first() =~= rest.drop_last());
        assert(rest.last() == words.last());
        assert(spaced(words) =~= words[0] + seq![' '] + spaced(rest));
    }
}

/// Joining and tokenizing are inverse on plain words: words of plain
/// characters, joined by spaces, are tokenized into the same words.
pub proof fn lemma_plain_words_come_back(words: Seq<Seq<char>>)
    requires
        plain_words(words),
    ensures
        lex(spaced(words)) == as_words(words),
    decreases words.len(),
{
    let empty = Seq::<char>::empty();
    if words.len() == 0 {
        assert(lex(spaced(words)) =~= as_words(words));
    } else {
        let first = words[0];
        let line = spaced(words);
        assert(first.len() > 0);
        if words.len() == 1 {
            assert(line == first);
            assert forall|j: int| 0 <= j < first.len() implies plain(#[trigger] line[j]) by {
                assert(plain(words[0][j]));
            }
            lemma_scan_plain_run(line, 0, first.len() as int, empty);
            assert(empty + line.subrange(0, first.len() as int) =~= first);
            assert(lex(line) =~= as_words(words));
        } else {
            let rest = words.drop_first();
            lemma_spaced_front(words);
            assert(plain_words(rest)) by {
                assert forall|k: int| 0 <= k < rest.len() implies (#[trigger] rest[k]).len() > 0
                    && forall|j: int| 0 <= j < rest[k].len() ==> plain(#[trigger] rest[k][j]) by {
                    assert(rest[k] == words[k + 1]);
                }
            }
            lemma_plain_words_come_back(rest);
            let at = first.len() as int;
            assert forall|j: int| 0 <= j < at implies plain(#[trigger] line[j]) by {
                assert(line[j] == first[j]);
                assert(plain(words[0][j]));
            }
            assert(line[at] == ' ');
            lemma_scan_plain_run(line, 0, at, empty);
            assert(empty + line.subrange(0, at) =~= first);
            assert(step(line, at, State::Unquoted, first).emitted == flushed(first));
            assert(scan(line, at, State::Unquoted, first) == flushed(first) + scan(
                line,
                at + 1,
                State::Unquoted,
                empty,
            ));
            lemma_scan_of_suffix(line, at + 1, at + 1, State::Unquoted, empty);
            assert(line.skip(at + 1) =~= spaced(rest));
            assert(flushed(first) + as_words(rest) =~= as_words(words)) by {
                assert forall|k: int| 1 <= k < words.len() implies as_words(rest)[k - 1]
                    == as_words(words)[k] by {
                    assert(rest[k - 1] == words[k]);
                }
            }
        }
    }
}

/// Whether `ch` is a space, a tab or a newline.
pub fn is_blank_char(ch: char) -> (blank: bool)
    ensures
        blank == is_blank(ch),
{
    ch == ' ' || ch == '\t' || ch == '\n'
}

/// The text of `chars` between the positions `from` and `to`.
pub(crate) fn text_between(chars: &Vec<char>, from: usize, to: usize) -> (text: String)
    requires
        from <= to <= chars.len(),
    ensures
        text@ == chars@.subrange(from as int, to as int),
{
    let mut text = String::new();
    let mut k: usize = from;
    while k < to
        invariant
            from <= k <= to <= chars.len(),
            text@ == chars@.subrange(from as int, k as int),
        decreases to - k,
    {
        text.push(chars[k]);
        assert(chars@.subrange(from as int, k as int).push(chars@[k as int]) =~= chars@.subrange(
            from as int,
            k + 1,
        ));
        k += 1;
    }
    text
}

/// `s` without the spaces, tabs and newlines at its start and at its end.
pub fn trim(s: &str) -> (text: String)
    ensures
        text@ == trimmed(s@),
{
    let chars = chars_of(s);
    let n = chars.len();
    let mut start: usize = 0;
    assert(chars@.skip(0) =~= chars@);
    while start < n && is_blank_char(chars[start])
        invariant
            n == chars.len(),
            start <= n,
            drop_leading_blanks(chars@) == drop_leading_blanks(chars@.skip(start as int)),
        decreases n - start,
    {
        assert(chars@.skip(start as int).drop_first() =~= chars@.skip(start + 1));
        start += 1;
    }
    let ghost body = chars@.skip(start as int);
    assert(drop_leading_blanks(chars@) == body);
    let mut end: usize = n;
    assert(chars@.subrange(start as int, n as int) =~= body);
    while end > start && is_blank_char(chars[end - 1])
        invariant
            start <= end <= n,
            n == chars.len(),
            drop_trailing_blanks(body) == drop_trailing_blanks(
                chars@.subrange(start as int, end as int),
            ),
        decreases end,
    {
        assert(chars@.subrange(start as int, end as int).drop_last() =~= chars@.subrange(
            start as int,
            end - 1,
        ));
        end -= 1;
    }
    text_between(&chars, start, end)
}

/// The words of `words`, with one space between each two of them.
pub fn join_words(words: &Vec<String>) -> (text: String)
    ensures
        text@ == spaced(words.deep_view()),
{
    let mut text = String::new();
    let mut k: usize = 0;
    let ghost all = words.deep_view();
    assert(all.take(0) =~= Seq::<Seq<char>>::empty());
    while k < words.len()
        invariant
            k <= words.len(),
            all == words.deep_view(),
            text@ == spaced(all.take(k as int)),
        decreases words.len() - k,
    {
        let ghost next = all.take(k + 1);
        assert(next.drop_last() =~= all.take(k as int));
        assert(next.last() == words@[k as int]@);
        if k > 0 {
            text.push(' ');
        }
        text.append(words[k].as_str());
        proof {
            if k == 0 {
                assert(text@ =~= next[0]);
            } else {
                assert(text@ =~= spaced(next.drop_last()) + seq![' '] + next.last());
            }
        }
        k += 1;
    }
    assert(all.take(k as int) =~= all);
    text
}

} // verus!
