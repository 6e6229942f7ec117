//! Where the output of a command goes, and the run of a pipeline.

use crate::commands::builtins::{
    after_builtin, builtin_change, builtin_names, handle_builtins, is_builtin, Context, Effect,
};
use crate::commands::cmds::{Cmd, Invocation};
use crate::commands::executor::{Executor, Run, StageKind};
use crate::commands::utils::{
    append_err, append_out, print_err, print_out, printed, write_err, write_out, Emission,
    Output, Stream,
};
use crate::deep::{lemma_empty_deep, lemma_push_deep};
use crate::parser::parser::Parser;
use crate::parser::pipe::{lemma_segment_stages_proper, segment};
use crate::parser::redir::RedirectionPlan;
use crate::tokenizer::{Lexeme, Token};
use vstd::prelude::*;
use vstd::string::*;

verus! {

/// What a stage holds: nothing, a built-in command or another command.
pub open spec fn stage_kind(stage: Seq<Lexeme>) -> StageKind {
    if stage.len() == 0 {
        StageKind::Empty
    } else if builtin_names().contains(stage[0].text()) {
        StageKind::Builtin
    } else {
        StageKind::External
    }
}

/// What each stage of a pipeline holds.
pub open spec fn stage_kinds(stages: Seq<Seq<Lexeme>>) -> Seq<StageKind> {
    Seq::new(stages.len(), |k: int| stage_kind(stages[k]))
}

/// The stages of a token sequence hold commands: none of them is empty, so
/// each of them is started when the pipeline runs.
pub proof fn lemma_segmented_stages_hold_commands(toks: Seq<Lexeme>)
    ensures
        forall|k: int|
            0 <= k < segment(toks).len() ==> !(#[trigger] stage_kinds(segment(toks))[k] is Empty),
{
    lemma_segment_stages_proper(toks);
    assert forall|k: int| 0 <= k < segment(toks).len() implies !(#[trigger] stage_kinds(
        segment(toks),
    )[k] is Empty) by {
        assert(segment(toks)[k].len() > 0);
    }
}

/// What a stage holds.
pub fn kind_of(stage: &Vec<Token>) -> (kind: StageKind)
    ensures
        kind == stage_kind(stage.deep_view()),
{
    if stage.len() == 0 {
        StageKind::Empty
    } else if is_builtin(stage[0].to_string()) {
        StageKind::Builtin
    } else {
        StageKind::External
    }
}

/// Begins the run of the pipeline that the parser has read. The executor
/// that is returned names one action after the other; see `Executor`.
pub fn handle_pipe(parser: &Parser) -> (executor: Executor)
    ensures
        executor@ == Run::start(stage_kinds(parser.pipe@)),
        executor@.wf(),
{
    let mut kinds: Vec<StageKind> = Vec::new();
    let mut k: usize = 0;
    while k < parser.pipe.commands.len()
        invariant
            k <= parser.pipe.commands.len(),
            kinds@ == stage_kinds(parser.pipe@).take(k as int),
        decreases parser.pipe.commands.len() - k,
    {
        let kind = kind_of(&parser.pipe.commands[k]);
        kinds.push(kind);
        assert(kinds@ =~= stage_kinds(parser.pipe@).take(k + 1));
        k += 1;
    }
    assert(stage_kinds(parser.pipe@).take(k as int) =~= stage_kinds(parser.pipe@));
    Executor::new(kinds)
}

/// What one stream of a command gives out: a write to its target, or else
/// the captured text on the terminal, unless that is empty.
pub open spec fn stream_outputs(
    stream: Stream,
    target: Option<(Seq<char>, bool)>,
    text: Seq<char>,
) -> Seq<Emission> {
    match target {
        Some((path, append)) => seq![Emission::Write { path, append, text }],
        None => match printed(stream, text) {
            Some(emission) => seq![emission],
            None => Seq::empty(),
        },
    }
}

/// The outputs of a command under a redirection plan, in order. With a
/// combined target there is one write, of the standard error followed by the
/// standard output, and nothing is printed. Else the standard output goes
/// its way and then the standard error goes its own.
pub open spec fn outputs(cmd: Invocation, plan: RedirectionPlan) -> Seq<Emission> {
    match plan.combined_target {
        Some((path, append)) => seq![
            Emission::Write { path, append, text: cmd.stderr + cmd.stdout },
        ],
        None => stream_outputs(Stream::Stdout, plan.stdout_target, cmd.stdout) + stream_outputs(
            Stream::Stderr,
            plan.stderr_target,
            cmd.stderr,
        ),
    }
}

/// Under a combined target nothing is printed and nothing captured is lost:
/// the outputs are one write, which holds all of the standard error and all
/// of the standard output.
pub proof fn lemma_combined_prints_nothing(cmd: Invocation, plan: RedirectionPlan)
    requires
        plan.combined_target is Some,
    ensures
        outputs(cmd, plan).len() == 1,
        plan.combined_target matches Some((target, flag)) && outputs(cmd, plan)[0] == (
        Emission::Write { path: target, append: flag, text: cmd.stderr + cmd.stdout }),
{
}

fn push_output(outputs: &mut Vec<Output>, output: Output)
    ensures
        final(outputs).deep_view() == old(outputs).deep_view().push(output@),
{
    let ghost before = *outputs;
    outputs.push(output);
    proof {
        lemma_push_deep(before, *outputs, output);
    }
}

/// The outputs of a command under the redirections that the parser has
/// read, in the order in which they are to be carried out.
pub fn handle_redir(cmd: &Cmd, parser: &Parser) -> (out: Vec<Output>)
    ensures
        out.deep_view() == outputs(cmd@, parser.redir@),
{
    let mut out: Vec<Output> = Vec::new();
    proof {
        lemma_empty_deep(out);
    }
    match &parser.redir.combined_file {
        Some((filename, is_append)) => {
            let mut text = cmd.stderr.clone();
            text.append(cmd.stdout.as_str());
            push_output(
                &mut out,
                Output::Write { path: filename.clone(), append: *is_append, text },
            );
            assert(out.deep_view() =~= outputs(cmd@, parser.redir@));
        },
        None => {
            match &parser.redir.stdout_file {
                Some((filename, is_append)) => {
                    if *is_append {
                        push_output(&mut out, append_out(cmd, filename.clone()));
                    } else {
                        push_output(&mut out, write_out(cmd, filename.clone()));
                    }
                },
                None => {
                    match print_out(cmd) {
                        Some(output) => {
                            push_output(&mut out, output);
                        },
                        None => {},
                    }
                },
            }
            assert(out.deep_view() =~= stream_outputs(
                Stream::Stdout,
                parser.redir@.stdout_target,
                cmd@.stdout,
            ));
            let ghost first = out.deep_view();
            match &parser.redir.stderr_file {
                Some((filename, is_append)) => {
                    if *is_append {
                        push_output(&mut out, append_err(cmd, filename.clone()));
                    } else {
                        push_output(&mut out, write_err(cmd, filename.clone()));
                    }
                },
                None => {
                    match print_err(cmd) {
                        Some(output) => {
                            push_output(&mut out, output);
                        },
                        None => {},
                    }
                },
            }
            assert(out.deep_view() =~= first + stream_outputs(
                Stream::Stderr,
                parser.redir@.stderr_target,
                cmd@.stderr,
            ));
        },
    }
    out
}

/// Runs the built-in command that `cmd` names, as `handle_builtins` does,
/// and gives its outputs under the redirections that the parser has read.
/// Returns what the command wants done to the process, and the outputs in
/// the order in which they are to be carried out.
pub fn run_builtin(cmd: &mut Cmd, parser: &Parser, context: &Context) -> (done: (
    Effect,
    Vec<Output>,
))
    ensures
        final(cmd)@ == after_builtin(old(cmd)@, *context),
        done.0@ == builtin_change(old(cmd)@, *context),
        done.1.deep_view() == outputs(after_builtin(old(cmd)@, *context), parser.redir@),
{
    let effect = handle_builtins(cmd, context);
    let out = handle_redir(cmd, parser);
    (effect, out)
}

} // verus!
