//! Extraction of redirections from a token sequence.
//!
//! A redirection is an operator directly followed by a word, the file name.
//! Each one is taken out of the sequence and recorded in the plan; where a
//! stream is redirected more than once the last one wins. An operator that no
//! word follows is taken out and has no effect.

use crate::deep::lemma_push_deep;
use crate::tokenizer::{Lexeme, Token};
use vstd::prelude::*;

verus! {

/// The stream a redirection operator applies to.
#[derive(Debug, Clone, Copy)]
pub enum Slot {
    Stdout,
    Stderr,
    Combined,
}

/// Where the output of a command goes: per stream, a file name and whether
/// the file is appended to.
#[derive(Debug)]
pub struct Redir {
    pub stdout_file: Option<(String, bool)>,
    pub stderr_file: Option<(String, bool)>,
    pub combined_file: Option<(String, bool)>,
}

/// The mathematical value of a `Redir`.
pub struct RedirectionPlan {
    pub stdout_target: Option<(Seq<char>, bool)>,
    pub stderr_target: Option<(Seq<char>, bool)>,
    pub combined_target: Option<(Seq<char>, bool)>,
}

/// The value of one target.
pub open spec fn target_view(target: Option<(String, bool)>) -> Option<(Seq<char>, bool)> {
    match target {
        Some((path, append)) => Some((path@, append)),
        None => None,
    }
}

impl View for Redir {
    type V = RedirectionPlan;

    open spec fn view(&self) -> RedirectionPlan {
        RedirectionPlan {
            stdout_target: target_view(self.stdout_file),
            stderr_target: target_view(self.stderr_file),
            combined_target: target_view(self.combined_file),
        }
    }
}

impl DeepView for Redir {
    type V = RedirectionPlan;

    open spec fn deep_view(&self) -> RedirectionPlan {
        self@
    }
}

impl RedirectionPlan {
    /// The plan that redirects nothing.
    pub open spec fn none() -> RedirectionPlan {
        RedirectionPlan { stdout_target: None, stderr_target: None, combined_target: None }
    }

    /// The plan with the target of one stream replaced.
    pub open spec fn with(self, slot: Slot, path: Seq<char>, append: bool) -> RedirectionPlan {
        match slot {
            Slot::Stdout => RedirectionPlan { stdout_target: Some((path, append)), ..self },
            Slot::Stderr => RedirectionPlan { stderr_target: Some((path, append)), ..self },
            Slot::Combined => RedirectionPlan { combined_target: Some((path, append)), ..self },
        }
    }
}

impl RedirectionPlan {
    /// Where a stream goes: to the combined target where there is one, else
    /// to the stream's own; the combined slot has the combined target.
    pub open spec fn target_of(self, slot: Slot) -> Option<(Seq<char>, bool)> {
        match slot {
            Slot::Combined => self.combined_target,
            Slot::Stdout => if self.combined_target is Some {
                self.combined_target
            } else {
                self.stdout_target
            },
            Slot::Stderr => if self.combined_target is Some {
                self.combined_target
            } else {
                self.stderr_target
            },
        }
    }
}

/// The stream and the append flag of a redirection operator; `None` for
/// every other lexeme.
pub open spec fn redirection(l: Lexeme) -> Option<(Slot, bool)> {
    match l {
        Lexeme::RedirectOut => Some((Slot::Stdout, false)),
        Lexeme::AppendOut => Some((Slot::Stdout, true)),
        Lexeme::RedirectErr => Some((Slot::Stderr, false)),
        Lexeme::AppendErr => Some((Slot::Stderr, true)),
        Lexeme::RedirectBoth => Some((Slot::Combined, false)),
        Lexeme::AppendBoth => Some((Slot::Combined, true)),
        _ => None,
    }
}

/// Whether a word stands at position `i` of `toks`.
pub open spec fn word_at(toks: Seq<Lexeme>, i: int) -> bool {
    0 <= i < toks.len() && toks[i] is Word
}

/// The command tokens that are left of `toks` from position `i` on, once the
/// redirections are taken out.
pub open spec fn remaining(toks: Seq<Lexeme>, i: int) -> Seq<Lexeme>
    decreases toks.len() - i,
{
    if i < 0 || i >= toks.len() {
        Seq::empty()
    } else if redirection(toks[i]) is Some {
        if word_at(toks, i + 1) {
            remaining(toks, i + 2)
        } else {
            remaining(toks, i + 1)
        }
    } else {
        seq![toks[i]] + remaining(toks, i + 1)
    }
}

/// The plan that results from `plan` by the redirections of `toks` from
/// position `i` on, applied from left to right.
pub open spec fn planned(toks: Seq<Lexeme>, i: int, plan: RedirectionPlan) -> RedirectionPlan
    decreases toks.len() - i,
{
    if i < 0 || i >= toks.len() {
        plan
    } else {
        match redirection(toks[i]) {
            Some((slot, append)) => {
                if word_at(toks, i + 1) {
                    planned(toks, i + 2, plan.with(slot, toks[i + 1]->Word_0, append))
                } else {
                    planned(toks, i + 1, plan)
                }
            },
            None => planned(toks, i + 1, plan),
        }
    }
}

/// The command tokens of a token sequence.
pub open spec fn command_tokens(toks: Seq<Lexeme>) -> Seq<Lexeme> {
    remaining(toks, 0)
}

/// The plan after the redirections of a token sequence.
pub open spec fn plan_after(plan: RedirectionPlan, toks: Seq<Lexeme>) -> RedirectionPlan {
    planned(toks, 0, plan)
}

proof fn lemma_remaining_holds_no_redirection(toks: Seq<Lexeme>, i: int)
    ensures
        forall|k: int|
            0 <= k < remaining(toks, i).len() ==> redirection(#[trigger] remaining(toks, i)[k])
                is None,
    decreases toks.len() - i,
{
    if i < 0 || i >= toks.len() {
    } else if redirection(toks[i]) is Some {
        if word_at(toks, i + 1) {
            lemma_remaining_holds_no_redirection(toks, i + 2);
        } else {
            lemma_remaining_holds_no_redirection(toks, i + 1);
        }
    } else {
        lemma_remaining_holds_no_redirection(toks, i + 1);
    }
}

/// No redirection operator is left among the command tokens.
pub proof fn lemma_command_tokens_hold_no_redirection(toks: Seq<Lexeme>)
    ensures
        forall|k: int|
            0 <= k < command_tokens(toks).len() ==> redirection(#[trigger] command_tokens(toks)[k])
                is None,
{
    lemma_remaining_holds_no_redirection(toks, 0);
}

proof fn lemma_remaining_comes_from(toks: Seq<Lexeme>, i: int)
    requires
        0 <= i,
    ensures
        forall|k: int|
            0 <= k < remaining(toks, i).len() ==> toks.contains(#[trigger] remaining(toks, i)[k]),
        remaining(toks, i).len() <= toks.len() - i || remaining(toks, i).len() == 0,
    decreases toks.len() - i,
{
    if i >= toks.len() {
    } else if redirection(toks[i]) is Some {
        if word_at(toks, i + 1) {
            lemma_remaining_comes_from(toks, i + 2);
        } else {
            lemma_remaining_comes_from(toks, i + 1);
        }
    } else {
        lemma_remaining_comes_from(toks, i + 1);
        assert forall|k: int| 0 <= k < remaining(toks, i).len() implies toks.contains(
            #[trigger] remaining(toks, i)[k],
        ) by {
            if k == 0 {
                assert(toks[i] == remaining(toks, i)[0]);
            } else {
                assert(remaining(toks, i)[k] == remaining(toks, i + 1)[k - 1]);
            }
        }
    }
}

/// Every command token is a token of the sequence, and there are no more of
/// them than tokens.
pub proof fn lemma_command_tokens_come_from(toks: Seq<Lexeme>)
    ensures
        forall|k: int|
            0 <= k < command_tokens(toks).len() ==> toks.contains(
                #[trigger] command_tokens(toks)[k],
            ),
        command_tokens(toks).len() <= toks.len(),
{
    lemma_remaining_comes_from(toks, 0);
}

proof fn lemma_remaining_without_redirection(toks: Seq<Lexeme>, plan: RedirectionPlan, i: int)
    requires
        0 <= i <= toks.len(),
        forall|k: int| 0 <= k < toks.len() ==> redirection(#[trigger] toks[k]) is None,
    ensures
        remaining(toks, i) == toks.skip(i),
        planned(toks, i, plan) == plan,
    decreases toks.len() - i,
{
    if i < toks.len() {
        lemma_remaining_without_redirection(toks, plan, i + 1);
        assert(seq![toks[i]] + toks.skip(i + 1) =~= toks.skip(i));
    } else {
        assert(remaining(toks, i) =~= toks.skip(i));
    }
}

/// Tokens without a redirection operator pass through unchanged, and the
/// plan stays as it is.
pub proof fn lemma_without_redirection_nothing_changes(toks: Seq<Lexeme>, plan: RedirectionPlan)
    requires
        forall|k: int| 0 <= k < toks.len() ==> redirection(#[trigger] toks[k]) is None,
    ensures
        command_tokens(toks) == toks,
        plan_after(plan, toks) == plan,
{
    lemma_remaining_without_redirection(toks, plan, 0);
    assert(toks.skip(0) =~= toks);
}

/// The tokens `first` and `second` can be read one after the other: no
/// redirection operator at the end of `first` has its file name at the
/// start of `second`.
pub open spec fn separable(first: Seq<Lexeme>, second: Seq<Lexeme>) -> bool {
    !(first.len() > 0 && redirection(first.last()) is Some && word_at(second, 0))
}

proof fn lemma_remaining_of_tail(
    first: Seq<Lexeme>,
    second: Seq<Lexeme>,
    plan: RedirectionPlan,
    j: int,
)
    requires
        0 <= j,
    ensures
        remaining(first + second, first.len() + j) == remaining(second, j),
        planned(first + second, first.len() + j, plan) == planned(second, j, plan),
    decreases second.len() - j,
{
    let all = first + second;
    let i = first.len() + j;
    if j < second.len() {
        assert(all[i] == second[j]);
        assert(word_at(all, i + 1) == word_at(second, j + 1)) by {
            if j + 1 < second.len() {
                assert(all[i + 1] == second[j + 1]);
            }
        }
        match redirection(second[j]) {
            Some((slot, append)) => {
                if word_at(second, j + 1) {
                    assert(all[i + 1] == second[j + 1]);
                    lemma_remaining_of_tail(
                        first,
                        second,
                        plan.with(slot, second[j + 1]->Word_0, append),
                        j + 2,
                    );
                } else {
                    lemma_remaining_of_tail(first, second, plan, j + 1);
                }
            },
            None => {
                lemma_remaining_of_tail(first, second, plan, j + 1);
            },
        }
    }
}

proof fn lemma_remaining_of_parts(
    first: Seq<Lexeme>,
    second: Seq<Lexeme>,
    plan: RedirectionPlan,
    i: int,
)
    requires
        0 <= i <= first.len(),
        separable(first, second),
    ensures
        remaining(first + second, i) == remaining(first, i) + remaining(second, 0),
        planned(first + second, i, plan) == planned(second, 0, planned(first, i, plan)),
    decreases first.len() - i,
{
    let all = first + second;
    if i == first.len() {
        lemma_remaining_of_tail(first, second, plan, 0);
        assert(remaining(first, i) + remaining(second, 0) =~= remaining(second, 0));
    } else {
        assert(all[i] == first[i]);
        match redirection(first[i]) {
            Some((slot, append)) => {
                assert(word_at(all, i + 1) == word_at(first, i + 1)) by {
                    if i + 1 < first.len() {
                        assert(all[i + 1] == first[i + 1]);
                    } else if second.len() > 0 {
                        assert(first.last() == first[i]);
                        assert(all[i + 1] == second[0]);
                    }
                }
                if word_at(first, i + 1) {
                    assert(all[i + 1] == first[i + 1]);
                    lemma_remaining_of_parts(
                        first,
                        second,
                        plan.with(slot, first[i + 1]->Word_0, append),
                        i + 2,
                    );
                } else {
                    lemma_remaining_of_parts(first, second, plan, i + 1);
                }
            },
            None => {
                lemma_remaining_of_parts(first, second, plan, i + 1);
                assert(seq![first[i]] + (remaining(first, i + 1) + remaining(second, 0)) =~= (seq![
                    first[i],
                ] + remaining(first, i + 1)) + remaining(second, 0));
            },
        }
    }
}

/// Redirections are read from left to right: where no operator is parted
/// from its file name, the tokens of two parts give the command tokens of
/// the first part followed by those of the second, and the plan of the
/// first part overlaid by that of the second.
pub proof fn lemma_extract_in_parts(first: Seq<Lexeme>, second: Seq<Lexeme>, plan: RedirectionPlan)
    requires
        separable(first, second),
    ensures
        command_tokens(first + second) == command_tokens(first) + command_tokens(second),
        plan_after(plan, first + second) == plan_after(plan_after(plan, first), second),
{
    lemma_remaining_of_parts(first, second, plan, 0);
}

/// The last redirection of a stream wins: a redirection at the end of the
/// tokens sets the target of its stream, whatever stood there before, and
/// leaves the other streams and the command tokens as they were.
pub proof fn lemma_last_redirection_wins(
    toks: Seq<Lexeme>,
    operator: Lexeme,
    path: Seq<char>,
    plan: RedirectionPlan,
)
    requires
        redirection(operator) is Some,
        toks.len() == 0 || redirection(toks.last()) is None,
    ensures
        redirection(operator) matches Some((slot, append)) && plan_after(
            plan,
            toks + seq![operator, Lexeme::Word(path)],
        ) == plan_after(plan, toks).with(slot, path, append),
        command_tokens(toks + seq![operator, Lexeme::Word(path)]) == command_tokens(toks),
{
    let tail = seq![operator, Lexeme::Word(path)];
    lemma_extract_in_parts(toks, tail, plan);
    let before = plan_after(plan, toks);
    assert(word_at(tail, 1));
    assert(tail[1]->Word_0 == path);
    reveal_with_fuel(planned, 3);
    reveal_with_fuel(remaining, 3);
    assert(command_tokens(toks) + command_tokens(tail) =~= command_tokens(toks));
}

/// The stream and the append flag of a redirection operator.
pub fn slot_of(token: &Token) -> (slot: Option<(Slot, bool)>)
    ensures
        slot == redirection(token@),
{
    match token {
        Token::RedirectOut => Some((Slot::Stdout, false)),
        Token::AppendOut => Some((Slot::Stdout, true)),
        Token::RedirectErr => Some((Slot::Stderr, false)),
        Token::AppendErr => Some((Slot::Stderr, true)),
        Token::RedirectBoth => Some((Slot::Combined, false)),
        Token::AppendBoth => Some((Slot::Combined, true)),
        _ => None,
    }
}

fn clone_target(target: &Option<(String, bool)>) -> (copy: Option<(String, bool)>)
    ensures
        copy == *target,
{
    match target {
        Some((path, append)) => Some((path.clone(), *append)),
        None => None,
    }
}

impl Clone for Redir {
    fn clone(&self) -> (copy: Self)
        ensures
            copy == *self,
    {
        Redir {
            stdout_file: clone_target(&self.stdout_file),
            stderr_file: clone_target(&self.stderr_file),
            combined_file: clone_target(&self.combined_file),
        }
    }
}

impl Redir {
    /// A plan that redirects nothing.
    pub fn new() -> (redir: Self)
        ensures
            redir@ == RedirectionPlan::none(),
    {
        Redir { stdout_file: None, stderr_file: None, combined_file: None }
    }

    /// Takes the redirections out of `toks`, records them in the plan and
    /// returns the command tokens, in their order.
    pub fn parse(&mut self, toks: Vec<Token>) -> (cmd_toks: Vec<Token>)
        ensures
            cmd_toks.deep_view() == command_tokens(toks.deep_view()),
            final(self)@ == plan_after(old(self)@, toks.deep_view()),
    {
        let mut cmd_toks: Vec<Token> = Vec::new();
        let mut i: usize = 0;
        let n = toks.len();
        let ghost all = toks.deep_view();
        assert(cmd_toks.deep_view() =~= Seq::<Lexeme>::empty());
        assert(cmd_toks.deep_view() + command_tokens(all) =~= command_tokens(all));
        while i < n
            invariant
                n == toks.len(),
                i <= n,
                all == toks.deep_view(),
                cmd_toks.deep_view() + remaining(all, i as int) == command_tokens(all),
                planned(all, i as int, self@) == plan_after(old(self)@, all),
            decreases n - i,
        {
            let ghost kept = cmd_toks.deep_view();
            match slot_of(&toks[i]) {
                Some((slot, append)) => {
                    match self.get_filename(&toks, i + 1) {
                        Some(filename) => {
                            self.set(slot, filename, append);
                            i += 2;
                        },
                        None => {
                            i += 1;
                        },
                    }
                },
                None => {
                    let ghost before = cmd_toks;
                    let token = toks[i].clone();
                    cmd_toks.push(token);
                    proof {
                        lemma_push_deep(before, cmd_toks, token);
                        assert(cmd_toks.deep_view() + remaining(all, i + 1) =~= kept + (seq![
                            all[i as int],
                        ] + remaining(all, i + 1)));
                    }
                    i += 1;
                },
            }
        }
        assert(cmd_toks.deep_view() + Seq::<Lexeme>::empty() =~= cmd_toks.deep_view());
        cmd_toks
    }

    /// Where a stream goes under this plan: the file and whether it is
    /// appended to. A combined target stands for both streams.
    pub fn target_of(&self, slot: Slot) -> (target: Option<(String, bool)>)
        ensures
            target_view(target) == self@.target_of(slot),
    {
        match slot {
            Slot::Combined => clone_target(&self.combined_file),
            Slot::Stdout => {
                if self.combined_file.is_some() {
                    clone_target(&self.combined_file)
                } else {
                    clone_target(&self.stdout_file)
                }
            },
            Slot::Stderr => {
                if self.combined_file.is_some() {
                    clone_target(&self.combined_file)
                } else {
                    clone_target(&self.stderr_file)
                }
            },
        }
    }

    /// The file name at position `index` of `toks`: the word there, if one
    /// stands there.
    pub fn get_filename(&self, toks: &Vec<Token>, index: usize) -> (filename: Option<String>)
        ensures
            match filename {
                Some(name) => word_at(toks.deep_view(), index as int) && toks.deep_view()[index as int]
                    == Lexeme::Word(name@),
                None => !word_at(toks.deep_view(), index as int),
            },
    {
        if index < toks.len() {
            match &toks[index] {
                Token::Word(filename) => Some(filename.clone()),
                _ => None,
            }
        } else {
            None
        }
    }

    /// Replaces the target of one stream.
    pub fn set(&mut self, slot: Slot, path: String, append: bool)
        ensures
            final(self)@ == old(self)@.with(slot, path@, append),
    {
        match slot {
            Slot::Stdout => {
                self.stdout_file = Some((path, append));
            },
            Slot::Stderr => {
                self.stderr_file = Some((path, append));
            },
            Slot::Combined => {
                self.combined_file = Some((path, append));
            },
        }
    }
}

} // verus!
