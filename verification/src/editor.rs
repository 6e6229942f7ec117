//! Completion of the word before the cursor.
//!
//! The names offered are those of the built-in commands and of the
//! executable files in the directories of the search path, which the caller
//! reads. They come in order, each once. A single name is followed by a
//! space, so that the next word can be typed at once.

use crate::commands::builtins::builtin_names;
use crate::commands::cmds::get_builtins;
use crate::deep::{lemma_empty_deep, lemma_push_deep};
use crate::text::text_between;
use crate::tokenizer::chars_of;
use vstd::prelude::*;
use vstd::string::*;
use vstd::utf8::encode_utf8;

verus! {

/// The helper of the line editor.
#[derive(Debug, Clone, Copy)]
pub struct EditHelper;

/// The white space that separates words on the edited line: the space and
/// the control characters from the tab to the carriage return.
pub open spec fn is_space(c: char) -> bool {
    c == ' ' || c == '\t' || c == '\n' || c == '\x0b' || c == '\x0c' || c == '\r'
}

/// The word at the end of `s`: the longest suffix without white space.
pub open spec fn last_word(s: Seq<char>) -> Seq<char>
    decreases s.len(),
{
    if s.len() == 0 || is_space(s.last()) {
        Seq::empty()
    } else {
        last_word(s.drop_last()).push(s.last())
    }
}

/// `a` comes before `b`, or is `b`, in the order of the characters' code
/// points, a prefix before what it is a prefix of.
pub open spec fn precedes(a: Seq<char>, b: Seq<char>) -> bool
    decreases a.len(),
{
    if a.len() == 0 {
        true
    } else if b.len() == 0 {
        false
    } else if a[0] != b[0] {
        (a[0] as int) < (b[0] as int)
    } else {
        precedes(a.drop_first(), b.drop_first())
    }
}

/// The names that begin with `word`, in their order.
pub open spec fn beginning_with(names: Seq<Seq<char>>, word: Seq<char>) -> Seq<Seq<char>>
    decreases names.len(),
{
    if names.len() == 0 {
        Seq::empty()
    } else if word.is_prefix_of(names.last()) {
        beginning_with(names.drop_last(), word).push(names.last())
    } else {
        beginning_with(names.drop_last(), word)
    }
}

/// `found`, and behind it each of `names` that is not there yet.
pub open spec fn merged(found: Seq<Seq<char>>, names: Seq<Seq<char>>) -> Seq<Seq<char>>
    decreases names.len(),
{
    if names.len() == 0 {
        found
    } else {
        let before = merged(found, names.drop_last());
        if before.contains(names.last()) {
            before
        } else {
            before.push(names.last())
        }
    }
}

/// The position at or behind `from` at which `name` enters a sequence in
/// order: before the first name that it strictly precedes.
pub open spec fn rank(names: Seq<Seq<char>>, name: Seq<char>, from: int) -> int
    decreases names.len() - from,
{
    if from < 0 || from >= names.len() {
        names.len() as int
    } else if !precedes(names[from], name) {
        from
    } else {
        rank(names, name, from + 1)
    }
}

/// The names in order.
pub open spec fn ordered(names: Seq<Seq<char>>) -> Seq<Seq<char>>
    decreases names.len(),
{
    if names.len() == 0 {
        Seq::empty()
    } else {
        let before = ordered(names.drop_last());
        before.insert(rank(before, names.last(), 0), names.last())
    }
}

/// The names offered for `word`: the built-in commands and the executables
/// that begin with it, each once, in order; a single name with a space
/// behind it.
pub open spec fn offered(executables: Seq<Seq<char>>, word: Seq<char>) -> Seq<Seq<char>> {
    let names = ordered(
        merged(beginning_with(builtin_names(), word), beginning_with(executables, word)),
    );
    if names.len() == 1 {
        seq![names[0].push(' ')]
    } else {
        names
    }
}

/// The number of bytes, in UTF-8, that stand before the last word of `s`.
pub open spec fn word_start(s: Seq<char>) -> nat {
    let all = encode_utf8(s).len();
    let word = encode_utf8(last_word(s)).len();
    if all >= word {
        (all - word) as nat
    } else {
        0
    }
}

/// Every neighbouring pair of `names` is in order.
pub open spec fn in_order(names: Seq<Seq<char>>) -> bool {
    forall|i: int, j: int|
        0 <= i < j < names.len() ==> precedes(#[trigger] names[i], #[trigger] names[j])
}

/// Any two texts are in order one way or the other.
pub proof fn lemma_precedes_total(a: Seq<char>, b: Seq<char>)
    ensures
        precedes(a, b) || precedes(b, a),
    decreases a.len(),
{
    if a.len() > 0 && b.len() > 0 {
        if a[0] == b[0] {
            lemma_precedes_total(a.drop_first(), b.drop_first());
        } else {
            assert(a[0] as int != b[0] as int);
        }
    }
}

/// The order is transitive.
pub proof fn lemma_precedes_transitive(a: Seq<char>, b: Seq<char>, c: Seq<char>)
    requires
        precedes(a, b),
        precedes(b, c),
    ensures
        precedes(a, c),
    decreases a.len(),
{
    if a.len() > 0 && b.len() > 0 && c.len() > 0 && a[0] == b[0] && b[0] == c[0] {
        lemma_precedes_transitive(a.drop_first(), b.drop_first(), c.drop_first());
    }
}

proof fn lemma_rank(names: Seq<Seq<char>>, name: Seq<char>, from: int)
    requires
        0 <= from <= names.len(),
    ensures
        from <= rank(names, name, from) <= names.len(),
        forall|k: int| from <= k < rank(names, name, from) ==> precedes(#[trigger] names[k], name),
        rank(names, name, from) < names.len() ==> !precedes(
            names[rank(names, name, from)],
            name,
        ),
    decreases names.len() - from,
{
    if from < names.len() && precedes(names[from], name) {
        lemma_rank(names, name, from + 1);
    }
}

/// The names that `ordered` gives are in order, and they are the names that
/// it was given, each as often as it was given.
pub proof fn lemma_ordered(names: Seq<Seq<char>>)
    ensures
        in_order(ordered(names)),
        ordered(names).to_multiset() == names.to_multiset(),
        ordered(names).len() == names.len(),
    decreases names.len(),
{
    broadcast use vstd::seq_lib::group_to_multiset_ensures;

    if names.len() == 0 {
        assert(ordered(names).to_multiset() =~= names.to_multiset());
    } else {
        let front = names.drop_last();
        let name = names.last();
        lemma_ordered(front);
        let before = ordered(front);
        let at = rank(before, name, 0);
        lemma_rank(before, name, 0);
        let after = before.insert(at, name);
        assert(after.len() == before.len() + 1);
        assert forall|i: int, j: int| 0 <= i < j < after.len() implies precedes(
            #[trigger] after[i],
            #[trigger] after[j],
        ) by {
            if j < at {
                assert(after[i] == before[i] && after[j] == before[j]);
            } else if j == at {
                assert(after[i] == before[i] && after[j] == name);
            } else if i < at {
                assert(after[i] == before[i] && after[j] == before[j - 1]);
                if j - 1 == i {
                } else {
                    assert(precedes(before[i], before[j - 1]));
                }
            } else if i == at {
                assert(after[i] == name && after[j] == before[j - 1]);
                lemma_precedes_total(before[at], name);
                if j - 1 > at {
                    assert(precedes(before[at], before[j - 1]));
                    lemma_precedes_transitive(name, before[at], before[j - 1]);
                }
            } else {
                assert(after[i] == before[i - 1] && after[j] == before[j - 1]);
            }
        }
        assert(after.remove(at) =~= before);
        assert(after[at] == name);
        assert(after.to_multiset().remove(name) == before.to_multiset());
        assert(after.to_multiset().count(name) > 0);
        assert(after.to_multiset() =~= before.to_multiset().insert(name));
        assert(front.push(name) =~= names);
        assert(names.to_multiset() =~= front.to_multiset().insert(name));
    }
}

/// Whether `ch` is white space on the edited line.
pub fn is_space_char(ch: char) -> (space: bool)
    ensures
        space == is_space(ch),
{
    ch == ' ' || ch == '\t' || ch == '\n' || ch == '\x0b' || ch == '\x0c' || ch == '\r'
}

/// The word before the cursor, given the text before the cursor: the
/// longest suffix of the text without white space. With it comes the
/// number of bytes of the text before the word.
pub fn extract_word(before: &str) -> (found: (usize, String))
    ensures
        found.1@ == last_word(before@),
        found.0 == word_start(before@),
{
    let chars = chars_of(before);
    let n = chars.len();
    let mut start: usize = n;
    assert(chars@.subrange(n as int, n as int) =~= Seq::<char>::empty());
    assert(chars@.take(n as int) =~= chars@);
    while start > 0 && !is_space_char(chars[start - 1])
        invariant
            start <= n,
            n == chars.len(),
            last_word(chars@) == last_word(chars@.take(start as int)) + chars@.subrange(
                start as int,
                n as int,
            ),
        decreases start,
    {
        let ghost head = chars@.take(start as int);
        assert(head.drop_last() =~= chars@.take(start - 1));
        assert(last_word(head) == last_word(head.drop_last()).push(head.last()));
        assert(last_word(head.drop_last()).push(head.last()) + chars@.subrange(
            start as int,
            n as int,
        ) =~= last_word(head.drop_last()) + chars@.subrange(start - 1, n as int));
        start -= 1;
    }
    assert(last_word(chars@.take(start as int)) =~= Seq::<char>::empty());
    assert(Seq::<char>::empty() + chars@.subrange(start as int, n as int) =~= chars@.subrange(
        start as int,
        n as int,
    ));
    let word = text_between(&chars, start, n);
    let all = before.as_bytes().len();
    let tail = word.as_str().as_bytes().len();
    let bytes = if all >= tail {
        all - tail
    } else {
        0
    };
    (bytes, word)
}

/// Whether `word` is a prefix of `name`.
pub fn begins_with(name: &Vec<char>, word: &Vec<char>) -> (begins: bool)
    ensures
        begins == word@.is_prefix_of(name@),
{
    if word.len() > name.len() {
        return false;
    }
    let mut k: usize = 0;
    while k < word.len()
        invariant
            k <= word.len() <= name.len(),
            forall|j: int| 0 <= j < k ==> word@[j] == name@[j],
        decreases word.len() - k,
    {
        if word[k] != name[k] {
            assert(name@.subrange(0, word@.len() as int)[k as int] != word@[k as int]);
            return false;
        }
        k += 1;
    }
    assert(word@ =~= name@.subrange(0, word@.len() as int));
    true
}

/// Whether `a` comes before `b` or is `b`.
pub fn comes_before(a: &Vec<char>, b: &Vec<char>) -> (before: bool)
    ensures
        before == precedes(a@, b@),
{
    let mut k: usize = 0;
    assert(a@.skip(0) =~= a@ && b@.skip(0) =~= b@);
    while k < a.len() && k < b.len() && a[k] == b[k]
        invariant
            k <= a.len(),
            k <= b.len(),
            precedes(a@, b@) == precedes(a@.skip(k as int), b@.skip(k as int)),
        decreases a.len() - k,
    {
        assert(a@.skip(k as int).drop_first() =~= a@.skip(k + 1));
        assert(b@.skip(k as int).drop_first() =~= b@.skip(k + 1));
        k += 1;
    }
    if k >= a.len() {
        true
    } else if k >= b.len() {
        false
    } else {
        char_before(a[k], b[k])
    }
}

/// Whether the code point of `a` is less than that of `b`.
fn char_before(a: char, b: char) -> (before: bool)
    ensures
        before == ((a as int) < (b as int)),
{
    a < b
}

fn holds(names: &Vec<String>, name: &String) -> (held: bool)
    ensures
        held == names.deep_view().contains(name@),
{
    let mut k: usize = 0;
    while k < names.len()
        invariant
            k <= names.len(),
            forall|j: int| 0 <= j < k ==> names.deep_view()[j] != name@,
        decreases names.len() - k,
    {
        if names[k] == *name {
            assert(names.deep_view()[k as int] == name@);
            return true;
        }
        k += 1;
    }
    false
}

fn insert_in_order(names: &mut Vec<String>, name: String)
    ensures
        final(names).deep_view() == old(names).deep_view().insert(
            rank(old(names).deep_view(), name@, 0),
            name@,
        ),
{
    let chars = chars_of(name.as_str());
    let mut at: usize = 0;
    let mut placed = false;
    while at < names.len() && !placed
        invariant
            at <= names.len(),
            chars@ == name@,
            rank(names.deep_view(), name@, 0) == rank(names.deep_view(), name@, at as int),
            placed ==> at < names.len() && !precedes(names.deep_view()[at as int], name@),
        decreases names.len() - at + (if placed { 0int } else { 1int }),
    {
        let other = chars_of(names[at].as_str());
        assert(names.deep_view()[at as int] == other@);
        if comes_before(&other, &chars) {
            at += 1;
        } else {
            placed = true;
        }
    }
    let ghost before = names.deep_view();
    assert(rank(before, name@, 0) == at);
    names.insert(at, name);
    assert(names.deep_view() =~= before.insert(at as int, name@));
}

impl EditHelper {
    /// The names to offer for the word before the cursor, given the text
    /// before the cursor and the names of the executable files in the
    /// directories of the search path. With them comes the number of bytes
    /// of the text before the word.
    pub fn complete(&self, before: &str, executables: &Vec<String>) -> (found: (
        usize,
        Vec<String>,
    ))
        ensures
            found.1.deep_view() == offered(executables.deep_view(), last_word(before@)),
            found.0 == word_start(before@),
    {
        let (start, word) = extract_word(before);
        let prefix = chars_of(word.as_str());
        let builtins = get_builtins();
        let mut candidates: Vec<String> = Vec::new();
        let mut k: usize = 0;
        proof {
            lemma_empty_deep(candidates);
            assert(builtins.deep_view().take(0) =~= Seq::<Seq<char>>::empty());
        }
        while k < builtins.len()
            invariant
                k <= builtins.len(),
                prefix@ == last_word(before@),
                builtins.deep_view() == builtin_names(),
                candidates.deep_view() == beginning_with(
                    builtins.deep_view().take(k as int),
                    prefix@,
                ),
            decreases builtins.len() - k,
        {
            let ghost next = builtins.deep_view().take(k + 1);
            assert(next.drop_last() =~= builtins.deep_view().take(k as int));
            let name = chars_of(builtins[k]);
            assert(next.last() == name@);
            if begins_with(&name, &prefix) {
                let ghost held = candidates;
                let text = String::from_str(builtins[k]);
                candidates.push(text);
                proof {
                    lemma_push_deep(held, candidates, text);
                }
            }
            k += 1;
        }
        assert(builtins.deep_view().take(k as int) =~= builtins.deep_view());
        let ghost first = candidates.deep_view();
        let ghost all = executables.deep_view();
        let mut k: usize = 0;
        assert(all.take(0) =~= Seq::<Seq<char>>::empty());
        while k < executables.len()
            invariant
                k <= executables.len(),
                prefix@ == last_word(before@),
                all == executables.deep_view(),
                candidates.deep_view() == merged(first, beginning_with(all.take(k as int), prefix@)),
            decreases executables.len() - k,
        {
            let ghost next = all.take(k + 1);
            assert(next.drop_last() =~= all.take(k as int));
            let name = chars_of(executables[k].as_str());
            assert(next.last() == name@);
            if begins_with(&name, &prefix) {
                let ghost matching = beginning_with(next, prefix@);
                assert(matching.drop_last() =~= beginning_with(all.take(k as int), prefix@));
                if !holds(&candidates, &executables[k]) {
                    let ghost held = candidates;
                    let text = executables[k].clone();
                    candidates.push(text);
                    proof {
                        lemma_push_deep(held, candidates, text);
                    }
                }
            }
            k += 1;
        }
        assert(all.take(k as int) =~= all);
        let ghost gathered = candidates.deep_view();
        let mut sorted: Vec<String> = Vec::new();
        let mut k: usize = 0;
        proof {
            lemma_empty_deep(sorted);
            assert(gathered.take(0) =~= Seq::<Seq<char>>::empty());
        }
        while k < candidates.len()
            invariant
                k <= candidates.len(),
                gathered == candidates.deep_view(),
                sorted.deep_view() == ordered(gathered.take(k as int)),
            decreases candidates.len() - k,
        {
            let ghost next = gathered.take(k + 1);
            assert(next.drop_last() =~= gathered.take(k as int));
            assert(next.last() == candidates@[k as int]@);
            insert_in_order(&mut sorted, candidates[k].clone());
            k += 1;
        }
        assert(gathered.take(k as int) =~= gathered);
        if sorted.len() == 1 {
            let mut only = sorted[0].clone();
            assert(sorted.deep_view()[0] == only@);
            only.push(' ');
            let mut single: Vec<String> = Vec::new();
            let ghost empty = single;
            single.push(only);
            proof {
                lemma_empty_deep(empty);
                lemma_push_deep(empty, single, only);
                assert(single.deep_view() =~= seq![only@]);
            }
            (start, single)
        } else {
            (start, sorted)
        }
    }
}

} // verus!
