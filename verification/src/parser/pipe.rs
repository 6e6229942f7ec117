//! Segmentation of a token sequence into the stages of a pipeline.
//!
//! The pipe operator separates stages. A stage is never empty: a pipe with
//! nothing before it, and one at the end of the line, separates nothing.

use crate::deep::{lemma_empty_deep, lemma_push_deep};
use crate::text::as_words;
use crate::tokenizer::{Lexeme, Token};
use vstd::prelude::*;
use vstd::string::*;

verus! {

/// The stages of a pipeline, in order; each is the tokens of one command.
#[derive(Debug)]
pub struct Pipe {
    pub commands: Vec<Vec<Token>>,
}

impl View for Pipe {
    type V = Seq<Seq<Lexeme>>;

    open spec fn view(&self) -> Seq<Seq<Lexeme>> {
        self.commands.deep_view()
    }
}

impl DeepView for Pipe {
    type V = Seq<Seq<Lexeme>>;

    open spec fn deep_view(&self) -> Seq<Seq<Lexeme>> {
        self@
    }
}

/// The tokens behind the last pipe of `toks`: the stage that is still open
/// at the end of `toks`.
pub open spec fn open_stage(toks: Seq<Lexeme>) -> Seq<Lexeme>
    decreases toks.len(),
{
    if toks.len() == 0 {
        Seq::empty()
    } else if toks.last() is Pipe {
        Seq::empty()
    } else {
        open_stage(toks.drop_last()).push(toks.last())
    }
}

/// A stage as a sequence of stages: itself, unless it is empty.
pub open spec fn stage_if_any(stage: Seq<Lexeme>) -> Seq<Seq<Lexeme>> {
    if stage.len() > 0 {
        seq![stage]
    } else {
        Seq::empty()
    }
}

/// The stages of `toks` that a pipe has closed.
pub open spec fn closed_stages(toks: Seq<Lexeme>) -> Seq<Seq<Lexeme>>
    decreases toks.len(),
{
    if toks.len() == 0 {
        Seq::empty()
    } else if toks.last() is Pipe {
        closed_stages(toks.drop_last()) + stage_if_any(open_stage(toks.drop_last()))
    } else {
        closed_stages(toks.drop_last())
    }
}

/// The stages of a token sequence.
pub open spec fn segment(toks: Seq<Lexeme>) -> Seq<Seq<Lexeme>> {
    closed_stages(toks) + stage_if_any(open_stage(toks))
}

/// The tokens of `toks` that are not pipes, in their order.
pub open spec fn without_pipes(toks: Seq<Lexeme>) -> Seq<Lexeme>
    decreases toks.len(),
{
    if toks.len() == 0 {
        Seq::empty()
    } else if toks.last() is Pipe {
        without_pipes(toks.drop_last())
    } else {
        without_pipes(toks.drop_last()).push(toks.last())
    }
}

/// The tokens of all stages, one stage after the other.
pub open spec fn concat(stages: Seq<Seq<Lexeme>>) -> Seq<Lexeme>
    decreases stages.len(),
{
    if stages.len() == 0 {
        Seq::empty()
    } else {
        concat(stages.drop_last()) + stages.last()
    }
}

/// The tokens of all stages with one pipe between each two of them.
pub open spec fn joined(stages: Seq<Seq<Lexeme>>) -> Seq<Lexeme>
    decreases stages.len(),
{
    if stages.len() == 0 {
        Seq::empty()
    } else if stages.len() == 1 {
        stages[0]
    } else {
        joined(stages.drop_last()) + seq![Lexeme::Pipe] + stages.last()
    }
}

/// The tokens of all stages with one pipe behind each of them.
pub open spec fn piped(stages: Seq<Seq<Lexeme>>) -> Seq<Lexeme>
    decreases stages.len(),
{
    if stages.len() == 0 {
        Seq::empty()
    } else {
        piped(stages.drop_last()) + stages.last() + seq![Lexeme::Pipe]
    }
}

/// Every pipe of `toks` stands between two tokens that are not pipes.
pub open spec fn pipes_separate(toks: Seq<Lexeme>) -> bool {
    forall|i: int|
        0 <= i < toks.len() && #[trigger] toks[i] is Pipe ==> 0 < i < toks.len() - 1 && !(toks[i
            - 1] is Pipe) && !(toks[i + 1] is Pipe)
}

/// No pipe of `toks` stands first or directly behind another pipe.
pub open spec fn pipes_follow_tokens(toks: Seq<Lexeme>) -> bool {
    forall|i: int|
        0 <= i < toks.len() && #[trigger] toks[i] is Pipe ==> 0 < i && !(toks[i - 1] is Pipe)
}

/// Every stage in `stages` is non-empty and holds no pipe.
pub open spec fn stages_proper(stages: Seq<Seq<Lexeme>>) -> bool {
    forall|k: int|
        0 <= k < stages.len() ==> (#[trigger] stages[k]).len() > 0 && forall|j: int|
            0 <= j < stages[k].len() ==> !(#[trigger] stages[k][j] is Pipe)
}

proof fn lemma_open_stage_pipe_free(toks: Seq<Lexeme>)
    ensures
        forall|j: int| 0 <= j < open_stage(toks).len() ==> !(#[trigger] open_stage(toks)[j] is Pipe),
        toks.len() > 0 && !(toks.last() is Pipe) ==> open_stage(toks).len() > 0,
    decreases toks.len(),
{
    if toks.len() > 0 && !(toks.last() is Pipe) {
        lemma_open_stage_pipe_free(toks.drop_last());
    }
}

proof fn lemma_closed_stages_proper(toks: Seq<Lexeme>)
    ensures
        stages_proper(closed_stages(toks)),
    decreases toks.len(),
{
    if toks.len() > 0 {
        lemma_closed_stages_proper(toks.drop_last());
        lemma_open_stage_pipe_free(toks.drop_last());
    }
}

/// Every stage of a token sequence holds a token, and none holds a pipe.
pub proof fn lemma_segment_stages_proper(toks: Seq<Lexeme>)
    ensures
        stages_proper(segment(toks)),
{
    lemma_closed_stages_proper(toks);
    lemma_open_stage_pipe_free(toks);
}

/// What is left without the pipes holds no pipe, and holds every other
/// token of the sequence: it is the sequence itself where that holds no pipe.
pub proof fn lemma_without_pipes(toks: Seq<Lexeme>)
    ensures
        forall|k: int| 0 <= k < without_pipes(toks).len() ==> !(#[trigger] without_pipes(toks)[k]
            is Pipe),
        forall|k: int|
            0 <= k < without_pipes(toks).len() ==> toks.contains(#[trigger] without_pipes(toks)[k]),
        (forall|k: int| 0 <= k < toks.len() ==> !(#[trigger] toks[k] is Pipe)) ==> without_pipes(
            toks,
        ) == toks,
        without_pipes(toks).len() <= toks.len(),
    decreases toks.len(),
{
    if toks.len() > 0 {
        let front = toks.drop_last();
        lemma_without_pipes(front);
        assert forall|k: int| 0 <= k < without_pipes(toks).len() implies toks.contains(
            #[trigger] without_pipes(toks)[k],
        ) by {
            if k < without_pipes(front).len() {
                let item = without_pipes(front)[k];
                assert(front.contains(item));
                let at = choose|at: int| 0 <= at < front.len() && front[at] == item;
                assert(toks[at] == item);
            } else {
                assert(toks[toks.len() - 1] == toks.last());
            }
        }
        if forall|k: int| 0 <= k < toks.len() ==> !(#[trigger] toks[k] is Pipe) {
            assert forall|k: int| 0 <= k < front.len() implies !(#[trigger] front[k] is Pipe) by {
                assert(front[k] == toks[k]);
            }
            assert(!(toks[toks.len() - 1] is Pipe));
            assert(front.push(toks.last()) =~= toks);
        }
    }
}

proof fn lemma_concat_with_stage(stages: Seq<Seq<Lexeme>>, stage: Seq<Lexeme>)
    ensures
        concat(stages + stage_if_any(stage)) == concat(stages) + stage,
{
    if stage.len() > 0 {
        let all = stages + stage_if_any(stage);
        assert(all.drop_last() =~= stages);
        assert(all.last() == stage);
    } else {
        assert(stages + stage_if_any(stage) =~= stages);
        assert(concat(stages) + stage =~= concat(stages));
    }
}

proof fn lemma_concat_of_prefix(toks: Seq<Lexeme>)
    ensures
        concat(closed_stages(toks)) + open_stage(toks) == without_pipes(toks),
    decreases toks.len(),
{
    if toks.len() == 0 {
        assert(concat(closed_stages(toks)) + open_stage(toks) =~= without_pipes(toks));
    } else {
        let front = toks.drop_last();
        lemma_concat_of_prefix(front);
        if toks.last() is Pipe {
            lemma_concat_with_stage(closed_stages(front), open_stage(front));
            assert(concat(closed_stages(toks)) + open_stage(toks) =~= concat(closed_stages(front))
                + open_stage(front));
        } else {
            assert(concat(closed_stages(toks)) + open_stage(toks) =~= (concat(
                closed_stages(front),
            ) + open_stage(front)).push(toks.last()));
        }
    }
}

/// Segmentation loses no token but the pipes and keeps the order: the
/// stages of any token sequence, one after the other, are its tokens
/// without the pipes.
pub proof fn lemma_segment_keeps_order(toks: Seq<Lexeme>)
    ensures
        concat(segment(toks)) == without_pipes(toks),
{
    lemma_concat_with_stage(closed_stages(toks), open_stage(toks));
    lemma_concat_of_prefix(toks);
}

proof fn lemma_joined_push(stages: Seq<Seq<Lexeme>>, stage: Seq<Lexeme>)
    ensures
        joined(stages.push(stage)) == piped(stages) + stage,
    decreases stages.len(),
{
    let all = stages.push(stage);
    if stages.len() == 0 {
        assert(piped(stages) + stage =~= stage);
    } else {
        assert(all.drop_last() =~= stages);
        lemma_joined_push(stages.drop_last(), stages.last());
        assert(stages.drop_last().push(stages.last()) =~= stages);
        assert(joined(all) =~= piped(stages) + stage);
    }
}

proof fn lemma_piped_of_prefix(toks: Seq<Lexeme>)
    requires
        pipes_follow_tokens(toks),
    ensures
        piped(closed_stages(toks)) + open_stage(toks) == toks,
    decreases toks.len(),
{
    if toks.len() == 0 {
        assert(piped(closed_stages(toks)) + open_stage(toks) =~= toks);
    } else {
        let front = toks.drop_last();
        assert(pipes_follow_tokens(front)) by {
            assert forall|i: int| 0 <= i < front.len() && #[trigger] front[i] is Pipe implies 0 < i
                && !(front[i - 1] is Pipe) by {
                assert(toks[i] is Pipe);
            }
        }
        lemma_piped_of_prefix(front);
        if toks.last() is Pipe {
            assert(toks[toks.len() - 1] is Pipe);
            assert(front.len() > 0 && !(front.last() is Pipe));
            lemma_open_stage_pipe_free(front);
            let stages = closed_stages(front);
            let stage = open_stage(front);
            assert(closed_stages(toks) =~= stages.push(stage));
            assert(closed_stages(toks).drop_last() =~= stages);
            assert(piped(closed_stages(toks)) + open_stage(toks) =~= (piped(stages) + stage).push(
                Lexeme::Pipe,
            ));
            assert(front.push(toks.last()) =~= toks);
        } else {
            assert(piped(closed_stages(toks)) + open_stage(toks) =~= (piped(closed_stages(front))
                + open_stage(front)).push(toks.last()));
            assert(front.push(toks.last()) =~= toks);
        }
    }
}

/// Segmentation can be undone: where every pipe of a token sequence stands
/// between two tokens that are not pipes, its stages joined by pipes are the
/// sequence itself.
pub proof fn lemma_segment_then_join(toks: Seq<Lexeme>)
    requires
        pipes_separate(toks),
    ensures
        joined(segment(toks)) == toks,
{
    assert(pipes_follow_tokens(toks));
    lemma_piped_of_prefix(toks);
    if toks.len() == 0 {
        assert(segment(toks) =~= Seq::<Seq<Lexeme>>::empty());
        assert(joined(segment(toks)) =~= toks);
    } else {
        if toks.last() is Pipe {
            assert(toks[toks.len() - 1] is Pipe);
        }
        lemma_open_stage_pipe_free(toks);
        assert(segment(toks) =~= closed_stages(toks).push(open_stage(toks)));
        lemma_joined_push(closed_stages(toks), open_stage(toks));
    }
}

/// The position of the first word of `words` that is the pipe sign; the
/// number of words if none is.
pub open spec fn first_pipe(words: Seq<Seq<char>>, from: int) -> int
    decreases words.len() - from,
{
    if from < 0 || from >= words.len() {
        words.len() as int
    } else if words[from] == "|"@ {
        from
    } else {
        first_pipe(words, from + 1)
    }
}

/// The words before the first pipe sign.
pub open spec fn before_first_pipe(words: Seq<Seq<char>>) -> Seq<Seq<char>> {
    words.take(first_pipe(words, 0))
}

/// The words behind the first pipe sign.
pub open spec fn behind_first_pipe(words: Seq<Seq<char>>) -> Seq<Seq<char>> {
    if first_pipe(words, 0) < words.len() {
        words.skip(first_pipe(words, 0) + 1)
    } else {
        Seq::empty()
    }
}

proof fn lemma_first_pipe(words: Seq<Seq<char>>, from: int)
    requires
        0 <= from <= words.len(),
    ensures
        from <= first_pipe(words, from) <= words.len(),
        forall|k: int| from <= k < first_pipe(words, from) ==> #[trigger] words[k] != "|"@,
        first_pipe(words, from) < words.len() ==> words[first_pipe(words, from)] == "|"@,
    decreases words.len() - from,
{
    if from < words.len() && words[from] != "|"@ {
        lemma_first_pipe(words, from + 1);
    }
}

/// The first pipe sign parts the words: no word before it is a pipe sign,
/// and the words are those before it, the sign, and those behind it; words
/// without a pipe sign all stand before it.
pub proof fn lemma_first_pipe_parts(words: Seq<Seq<char>>)
    ensures
        forall|k: int|
            0 <= k < before_first_pipe(words).len() ==> #[trigger] before_first_pipe(words)[k]
                != "|"@,
        words == (if first_pipe(words, 0) < words.len() {
            before_first_pipe(words) + seq!["|"@] + behind_first_pipe(words)
        } else {
            before_first_pipe(words)
        }),
{
    lemma_first_pipe(words, 0);
    let at = first_pipe(words, 0);
    if at < words.len() {
        assert(words =~= words.take(at) + seq!["|"@] + words.skip(at + 1));
    } else {
        assert(words =~= words.take(at));
    }
}

impl Clone for Pipe {
    fn clone(&self) -> (copy: Self)
        ensures
            copy@ == self@,
    {
        let mut commands: Vec<Vec<Token>> = Vec::new();
        let mut k: usize = 0;
        proof {
            lemma_empty_deep(commands);
        }
        while k < self.commands.len()
            invariant
                k <= self.commands.len(),
                commands.deep_view() == self.commands.deep_view().take(k as int),
            decreases self.commands.len() - k,
        {
            let stage = clone_tokens(&self.commands[k]);
            let ghost before = commands;
            commands.push(stage);
            proof {
                lemma_push_deep(before, commands, stage);
                assert(commands.deep_view() =~= self.commands.deep_view().take(k + 1));
            }
            k += 1;
        }
        assert(self.commands.deep_view().take(k as int) =~= self.commands.deep_view());
        Pipe { commands }
    }
}

/// A copy of a token vector.
pub fn clone_tokens(toks: &Vec<Token>) -> (copy: Vec<Token>)
    ensures
        copy.deep_view() == toks.deep_view(),
        copy@.len() == toks@.len(),
{
    let mut copy: Vec<Token> = Vec::new();
    let mut k: usize = 0;
    while k < toks.len()
        invariant
            k <= toks.len(),
            copy@.len() == k,
            forall|j: int| 0 <= j < k ==> copy@[j] == toks@[j],
        decreases toks.len() - k,
    {
        copy.push(toks[k].clone());
        k += 1;
    }
    assert(copy.deep_view() =~= toks.deep_view());
    copy
}

impl Pipe {
    /// A pipeline without stages.
    pub fn new() -> (pipe: Self)
        ensures
            pipe@ == Seq::<Seq<Lexeme>>::empty(),
    {
        let pipe = Pipe { commands: Vec::new() };
        proof {
            lemma_empty_deep(pipe.commands);
        }
        pipe
    }

    /// The simple form for words that hold at most one command behind a
    /// pipe. Returns the words before the first pipe sign. The words behind
    /// it, if there are any, are appended to the pipeline as one stage, each
    /// as a word: the first is the command, the others are its arguments,
    /// further pipe signs among them.
    pub fn parse_pipes(&mut self, toks: Vec<String>) -> (cmd_toks: Vec<String>)
        ensures
            cmd_toks.deep_view() == before_first_pipe(toks.deep_view()),
            final(self)@ == old(self)@ + stage_if_any(
                as_words(behind_first_pipe(toks.deep_view())),
            ),
    {
        let ghost all = toks.deep_view();
        let sign = String::from_str("|");
        let mut cmd_toks: Vec<String> = Vec::new();
        let mut i: usize = 0;
        let mut found = false;
        proof {
            lemma_empty_deep(cmd_toks);
            assert(all.take(0) =~= Seq::<Seq<char>>::empty());
        }
        while i < toks.len() && !found
            invariant
                i <= toks.len(),
                all == toks.deep_view(),
                sign@ == "|"@,
                first_pipe(all, 0) == first_pipe(all, i as int),
                cmd_toks.deep_view() == all.take(i as int),
                found ==> i < toks.len() && all[i as int] == "|"@,
            decreases toks.len() - i + (if found { 0int } else { 1int }),
        {
            assert(all[i as int] == toks@[i as int]@);
            if toks[i] == sign {
                found = true;
            } else {
                let ghost before = cmd_toks;
                let word = toks[i].clone();
                cmd_toks.push(word);
                proof {
                    lemma_push_deep(before, cmd_toks, word);
                    assert(cmd_toks.deep_view() =~= all.take(i + 1));
                }
                i += 1;
            }
        }
        assert(first_pipe(all, 0) == i);
        if found {
            let mut stage: Vec<Token> = Vec::new();
            let mut k: usize = i + 1;
            let ghost behind = all.skip(i + 1);
            proof {
                lemma_empty_deep(stage);
                assert(as_words(behind).take(0) =~= Seq::<Lexeme>::empty());
            }
            while k < toks.len()
                invariant
                    i < k <= toks.len(),
                    all == toks.deep_view(),
                    behind == all.skip(i + 1),
                    stage.deep_view() == as_words(behind).take(k - i - 1),
                decreases toks.len() - k,
            {
                let ghost before = stage;
                let token = Token::Word(toks[k].clone());
                assert(token@ == Lexeme::Word(all[k as int]));
                stage.push(token);
                proof {
                    lemma_push_deep(before, stage, token);
                    assert(behind[k - i - 1] == all[k as int]);
                    assert(stage.deep_view() =~= as_words(behind).take(k - i));
                }
                k += 1;
            }
            assert(as_words(behind).take(k - i - 1) =~= as_words(behind));
            if stage.len() > 0 {
                let ghost before = self.commands;
                let ghost added = stage;
                self.commands.push(stage);
                proof {
                    lemma_push_deep(before, self.commands, added);
                    assert(self@ =~= old(self)@ + stage_if_any(as_words(behind)));
                }
            } else {
                assert(self@ =~= old(self)@ + stage_if_any(as_words(behind)));
            }
        } else {
            assert(self@ =~= old(self)@ + stage_if_any(
                as_words(behind_first_pipe(all)),
            ));
        }
        cmd_toks
    }

    /// Appends the stages of `toks` to the pipeline and returns the tokens of
    /// `toks` that are not pipes, in their order.
    pub fn parse(&mut self, toks: Vec<Token>) -> (cmd_toks: Vec<Token>)
        ensures
            final(self)@ == old(self)@ + segment(toks.deep_view()),
            cmd_toks.deep_view() == without_pipes(toks.deep_view()),
    {
        let mut cur_cmd: Vec<Token> = Vec::new();
        let mut cmd_toks: Vec<Token> = Vec::new();
        let n = toks.len();
        let mut i: usize = 0;
        let ghost all = toks.deep_view();
        proof {
            lemma_empty_deep(cur_cmd);
            lemma_empty_deep(cmd_toks);
            assert(all.take(0) =~= Seq::<Lexeme>::empty());
            assert(old(self)@ + closed_stages(all.take(0)) =~= old(self)@);
        }
        while i < n
            invariant
                n == toks.len(),
                i <= n,
                all == toks.deep_view(),
                self@ == old(self)@ + closed_stages(all.take(i as int)),
                cur_cmd.deep_view() == open_stage(all.take(i as int)),
                cmd_toks.deep_view() == without_pipes(all.take(i as int)),
            decreases n - i,
        {
            let ghost seen = all.take(i as int);
            let ghost next = all.take(i + 1);
            assert(next.drop_last() =~= seen);
            assert(next.last() == all[i as int]);
            if toks[i].is_pipe() {
                if cur_cmd.len() > 0 {
                    let ghost before = self.commands;
                    let ghost stage = cur_cmd;
                    self.commands.push(cur_cmd);
                    cur_cmd = Vec::new();
                    proof {
                        lemma_push_deep(before, self.commands, stage);
                        lemma_empty_deep(cur_cmd);
                        assert(self@ =~= old(self)@ + closed_stages(next));
                    }
                } else {
                    assert(self@ =~= old(self)@ + closed_stages(next));
                }
            } else {
                let ghost cur_before = cur_cmd;
                let ghost flat_before = cmd_toks;
                let tok = toks[i].clone();
                let copy = tok.clone();
                cur_cmd.push(copy);
                cmd_toks.push(tok);
                proof {
                    lemma_push_deep(cur_before, cur_cmd, copy);
                    lemma_push_deep(flat_before, cmd_toks, tok);
                }
            }
            i += 1;
        }
        assert(all.take(n as int) =~= all);
        if cur_cmd.len() > 0 {
            let ghost before = self.commands;
            let ghost stage = cur_cmd;
            self.commands.push(cur_cmd);
            proof {
                lemma_push_deep(before, self.commands, stage);
                assert(self@ =~= old(self)@ + segment(all));
            }
        } else {
            assert(self@ =~= old(self)@ + segment(all));
        }
        cmd_toks
    }
}

} // verus!
