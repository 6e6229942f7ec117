//! The decisions of a pipeline run.
//!
//! Running a pipeline alternates work of the operating system (opening a
//! pipe, forking, closing a descriptor, waiting for a child) with decisions
//! on what to do next. The decisions are made here: an `Executor` names the
//! next `Action`, the caller carries it out and reports the `Outcome`.
//!
//! The run of a pipeline of N stages:
//! 1. N-1 pipes are opened up front. If one cannot be opened the failure is
//!    reported, the pipes opened so far are closed, and the run ends.
//! 2. The stages are taken in order; an empty stage is skipped. A built-in
//!    command in the last stage runs in the parent and ends the run at once:
//!    the children started before it are not waited for, and the read end
//!    of the last pipe stays with the parent. Every other stage is forked;
//!    the parent then closes the read end of the previous pipe and the
//!    write end of the stage's own pipe. If a fork fails the failure is
//!    reported and no further stage is started.
//! 3. Every descriptor that the parent still holds is closed, and every child
//!    is waited for, in the order of the forks.

use vstd::prelude::*;

verus! {

/// What a stage of a pipeline holds.
#[derive(Debug, Clone, Copy)]
pub enum StageKind {
    /// No token at all.
    Empty,
    /// A command that is not built in.
    External,
    /// A built-in command.
    Builtin,
}

/// A failure of the operating system during a run.
#[derive(Debug, Clone, Copy)]
pub enum Failure {
    /// A pipe could not be opened.
    Pipe,
    /// A process could not be forked.
    Fork,
}

/// One end of a pipe.
#[derive(Debug, Clone, Copy)]
pub enum End {
    Read,
    Write,
}

/// The next thing to do in a run.
#[derive(Debug, Clone, Copy)]
pub enum Action {
    /// Open a pipe; the outcome is `Opened` or `Failed`.
    OpenPipe,
    /// Fork a process for the stage. The child wires its descriptors as
    /// `Executor::wiring` says and runs the stage's program; the parent
    /// reports `Forked` or `Failed`.
    Fork { stage: usize },
    /// Close the descriptor in the parent; the outcome is `Done`.
    Close { fd: i32 },
    /// Wait for the child; the outcome is `Done`.
    Wait { pid: i32 },
    /// Run the built-in command of the stage in the parent and send its
    /// output where the redirections say; the outcome is `Done`.
    RunBuiltin { stage: usize },
    /// Tell the user of the failure; the outcome is `Done`.
    Report { failure: Failure },
    /// The run is over.
    Finish,
}

/// What came of an action.
#[derive(Debug, Clone, Copy)]
pub enum Outcome {
    /// A pipe was opened, with these descriptors.
    Opened { read: i32, write: i32 },
    /// A child was forked, with this process id.
    Forked { pid: i32 },
    /// The pipe could not be opened, or the process could not be forked.
    Failed,
    /// The action was carried out.
    Done,
}

/// The two descriptors of a pipe, and which of them the parent still holds.
#[derive(Debug, Clone, Copy)]
pub struct PipeEnds {
    pub read: i32,
    pub write: i32,
    pub read_open: bool,
    pub write_open: bool,
}

/// Where a run stands.
#[derive(Debug, Clone, Copy)]
pub enum Phase {
    /// Pipes are being opened.
    Allocating,
    /// The stage at the cursor is to be started.
    Spawning,
    /// The stage at the cursor was forked; the parent closes the pipe ends
    /// that only served this stage.
    Releasing,
    /// A failure is to be reported.
    Reporting(Failure),
    /// The descriptors that the parent still holds are being closed.
    Sweeping,
    /// The children are being waited for.
    Reaping,
    /// The run is over.
    Finished,
}

/// The state of a run, as a mathematical value.
pub struct Run {
    /// The stages of the pipeline.
    pub stages: Seq<StageKind>,
    /// The pipes opened so far.
    pub pipes: Seq<PipeEnds>,
    /// The process ids of the children, in the order of the forks.
    pub children: Seq<i32>,
    /// How many children have been waited for.
    pub reaped: nat,
    pub phase: Phase,
    /// The stage that is being started or was started last.
    pub cursor: nat,
    /// The failure that ended the starting of stages, if any.
    pub failure: Option<Failure>,
    /// Whether a built-in command ended the run.
    pub builtin_done: bool,
}

/// The number of pipes that a pipeline of these stages needs.
pub open spec fn needed_pipes(stages: Seq<StageKind>) -> nat {
    if stages.len() == 0 {
        0
    } else {
        (stages.len() - 1) as nat
    }
}

/// The first stage at or behind `from` that is not empty; the number of
/// stages if there is none.
pub open spec fn next_stage(stages: Seq<StageKind>, from: nat) -> nat
    decreases stages.len() - from,
{
    if from >= stages.len() {
        stages.len()
    } else if !(stages[from as int] is Empty) {
        from
    } else {
        next_stage(stages, from + 1)
    }
}

/// The number of stages before stage `until` that are not empty.
pub open spec fn started(stages: Seq<StageKind>, until: int) -> nat
    decreases until,
{
    if until <= 0 || until > stages.len() {
        0
    } else {
        started(stages, until - 1) + (if stages[until - 1] is Empty {
            0nat
        } else {
            1nat
        })
    }
}

/// Whether the parent still holds the given end of the pipe.
pub open spec fn holds(pipe: PipeEnds, end: End) -> bool {
    match end {
        End::Read => pipe.read_open,
        End::Write => pipe.write_open,
    }
}

/// The descriptor of the given end of the pipe.
pub open spec fn descriptor(pipe: PipeEnds, end: End) -> i32 {
    match end {
        End::Read => pipe.read,
        End::Write => pipe.write,
    }
}

/// The pipe with the given end closed in the parent.
pub open spec fn released(pipe: PipeEnds, end: End) -> PipeEnds {
    match end {
        End::Read => PipeEnds { read_open: false, ..pipe },
        End::Write => PipeEnds { write_open: false, ..pipe },
    }
}

/// The first pipe end at or behind pipe `from` that the parent still holds,
/// the read end of a pipe before its write end.
pub open spec fn first_open(pipes: Seq<PipeEnds>, from: int) -> Option<(int, End)>
    decreases pipes.len() - from,
{
    if from < 0 || from >= pipes.len() {
        None
    } else if pipes[from].read_open {
        Some((from, End::Read))
    } else if pipes[from].write_open {
        Some((from, End::Write))
    } else {
        first_open(pipes, from + 1)
    }
}

/// The parent holds no end of any pipe.
pub open spec fn all_closed(pipes: Seq<PipeEnds>) -> bool {
    forall|k: int| 0 <= k < pipes.len() ==> !(#[trigger] pipes[k]).read_open && !pipes[k].write_open
}

/// The number of pipe ends that the parent still holds.
pub open spec fn open_count(pipes: Seq<PipeEnds>) -> nat
    decreases pipes.len(),
{
    if pipes.len() == 0 {
        0
    } else {
        open_count(pipes.drop_last()) + (if pipes.last().read_open {
            1nat
        } else {
            0nat
        }) + (if pipes.last().write_open {
            1nat
        } else {
            0nat
        })
    }
}

/// Every descriptor of every pipe: of each pipe the read end, then the
/// write end.
pub open spec fn all_descriptors(pipes: Seq<PipeEnds>) -> Seq<i32>
    decreases pipes.len(),
{
    if pipes.len() == 0 {
        Seq::empty()
    } else {
        all_descriptors(pipes.drop_last()).push(pipes.last().read).push(pipes.last().write)
    }
}

impl Run {
    /// Whether the stage at the cursor runs in the parent: it is the last
    /// stage and a built-in command.
    pub open spec fn runs_in_parent(self) -> bool {
        self.cursor + 1 == self.stages.len() && self.stages[self.cursor as int] is Builtin
    }

    /// The pipe end that the parent closes next, once the stage at the
    /// cursor is forked: the read end of the previous pipe, then the write
    /// end of the stage's own pipe.
    pub open spec fn release_target(self) -> Option<(int, End)> {
        if 0 < self.cursor <= self.pipes.len() && self.pipes[self.cursor - 1].read_open {
            Some((self.cursor - 1, End::Read))
        } else if self.cursor < self.pipes.len() && self.pipes[self.cursor as int].write_open {
            Some((self.cursor as int, End::Write))
        } else {
            None
        }
    }

    /// The run with the given pipe end closed in the parent.
    pub open spec fn close(self, target: (int, End)) -> Run {
        Run { pipes: self.pipes.update(target.0, released(self.pipes[target.0], target.1)), ..self }
    }

    /// Goes on to waiting for the children, or ends the run if none is left.
    pub open spec fn to_reap(self) -> Run {
        if self.reaped < self.children.len() {
            Run { phase: Phase::Reaping, ..self }
        } else {
            Run { phase: Phase::Finished, ..self }
        }
    }

    /// Goes on to closing what the parent still holds, or further if it
    /// holds nothing.
    pub open spec fn to_sweep(self) -> Run {
        if first_open(self.pipes, 0) is Some {
            Run { phase: Phase::Sweeping, ..self }
        } else {
            self.to_reap()
        }
    }

    /// Goes on to the first stage at or behind `from` that is not empty, or
    /// further if there is none.
    pub open spec fn to_spawn(self, from: nat) -> Run {
        let stage = next_stage(self.stages, from);
        if stage < self.stages.len() {
            Run { phase: Phase::Spawning, cursor: stage, ..self }
        } else {
            self.to_sweep()
        }
    }

    /// Goes on to closing the pipe ends that only served the stage at the
    /// cursor, or further if there is none.
    pub open spec fn to_release(self) -> Run {
        if self.release_target() is Some {
            Run { phase: Phase::Releasing, ..self }
        } else {
            self.to_spawn(self.cursor + 1)
        }
    }

    /// Goes on opening pipes, or further if all are open.
    pub open spec fn to_allocate(self) -> Run {
        if self.pipes.len() < needed_pipes(self.stages) {
            Run { phase: Phase::Allocating, ..self }
        } else {
            self.to_spawn(0)
        }
    }

    /// The state in which the run of a pipeline begins.
    pub open spec fn start(stages: Seq<StageKind>) -> Run {
        Run {
            stages,
            pipes: Seq::empty(),
            children: Seq::empty(),
            reaped: 0,
            phase: Phase::Allocating,
            cursor: 0,
            failure: None,
            builtin_done: false,
        }.to_allocate()
    }

    /// The action that is due.
    pub open spec fn pending(self) -> Action {
        match self.phase {
            Phase::Allocating => Action::OpenPipe,
            Phase::Spawning => {
                if self.runs_in_parent() {
                    Action::RunBuiltin { stage: self.cursor as usize }
                } else {
                    Action::Fork { stage: self.cursor as usize }
                }
            },
            Phase::Releasing => match self.release_target() {
                Some(target) => Action::Close { fd: descriptor(self.pipes[target.0], target.1) },
                None => Action::Finish,
            },
            Phase::Reporting(failure) => Action::Report { failure },
            Phase::Sweeping => match first_open(self.pipes, 0) {
                Some(target) => Action::Close { fd: descriptor(self.pipes[target.0], target.1) },
                None => Action::Finish,
            },
            Phase::Reaping => {
                if self.reaped < self.children.len() {
                    Action::Wait { pid: self.children[self.reaped as int] }
                } else {
                    Action::Finish
                }
            },
            Phase::Finished => Action::Finish,
        }
    }

    /// Whether `outcome` is an outcome of the action that is due.
    pub open spec fn fits(self, outcome: Outcome) -> bool {
        match self.pending() {
            Action::OpenPipe => outcome is Opened || outcome is Failed,
            Action::Fork { .. } => outcome is Forked || outcome is Failed,
            Action::Close { .. } => outcome is Done,
            Action::Wait { .. } => outcome is Done,
            Action::RunBuiltin { .. } => outcome is Done,
            Action::Report { .. } => outcome is Done,
            Action::Finish => false,
        }
    }

    /// The state after the action that was due had the given outcome. An
    /// outcome that does not fit changes nothing.
    pub open spec fn after(self, outcome: Outcome) -> Run {
        if !self.fits(outcome) {
            self
        } else {
            match self.phase {
                Phase::Allocating => match outcome {
                    Outcome::Opened { read, write } => Run {
                        pipes: self.pipes.push(
                            PipeEnds { read, write, read_open: true, write_open: true },
                        ),
                        ..self
                    }.to_allocate(),
                    _ => Run {
                        phase: Phase::Reporting(Failure::Pipe),
                        failure: Some(Failure::Pipe),
                        ..self
                    },
                },
                Phase::Spawning => match outcome {
                    Outcome::Forked { pid } => Run {
                        children: self.children.push(pid),
                        ..self
                    }.to_release(),
                    Outcome::Failed => Run {
                        phase: Phase::Reporting(Failure::Fork),
                        failure: Some(Failure::Fork),
                        ..self
                    },
                    _ => Run { phase: Phase::Finished, builtin_done: true, ..self },
                },
                Phase::Releasing => self.close(self.release_target()->0).to_release(),
                Phase::Reporting(_) => self.to_sweep(),
                Phase::Sweeping => self.close(first_open(self.pipes, 0)->0).to_sweep(),
                Phase::Reaping => Run { reaped: self.reaped + 1, ..self }.to_reap(),
                Phase::Finished => self,
            }
        }
    }

    /// What holds of every state that a run passes through.
    pub open spec fn wf(self) -> bool {
        &&& self.stages.len() <= usize::MAX
        &&& self.pipes.len() <= needed_pipes(self.stages)
        &&& self.reaped <= self.children.len()
        &&& self.children.len() <= self.stages.len()
        &&& (self.reaped > 0 ==> self.phase is Reaping || self.phase is Finished)
        &&& (self.builtin_done ==> self.phase is Finished && self.failure is None
            && self.stages.len() > 0 && self.stages.last() is Builtin)
        &&& (self.failure is Some ==> !(self.phase is Allocating) && !(self.phase is Spawning)
            && !(self.phase is Releasing))
        &&& (self.failure is None && (self.phase is Sweeping || self.phase is Reaping
            || self.phase is Finished) ==> self.children.len() == started(
            self.stages,
            if self.builtin_done {
                self.stages.len() - 1
            } else {
                self.stages.len() as int
            },
        ))
        &&& match self.phase {
            Phase::Allocating => self.pipes.len() < needed_pipes(self.stages)
                && self.children.len() == 0,
            Phase::Spawning => self.pipes.len() == needed_pipes(self.stages) && self.cursor
                < self.stages.len() && !(self.stages[self.cursor as int] is Empty)
                && self.children.len() == started(self.stages, self.cursor as int),
            Phase::Releasing => self.pipes.len() == needed_pipes(self.stages) && self.cursor
                < self.stages.len() && !(self.stages[self.cursor as int] is Empty)
                && self.release_target() is Some && self.children.len() == started(
                self.stages,
                self.cursor as int + 1,
            ),
            Phase::Reporting(failure) => self.failure == Some(failure),
            Phase::Sweeping => first_open(self.pipes, 0) is Some,
            Phase::Reaping => all_closed(self.pipes) && self.reaped < self.children.len(),
            Phase::Finished => self.builtin_done || (all_closed(self.pipes) && self.reaped
                == self.children.len()),
        }
    }

    /// A bound on the number of actions that a run still takes.
    pub open spec fn potential(self) -> int {
        let stages = self.stages.len() as int;
        let by_phase = match self.phase {
            Phase::Allocating => 3 * (needed_pipes(self.stages) - self.pipes.len()) + 3 * stages,
            Phase::Spawning => 3 * (stages - self.cursor),
            Phase::Releasing => 3 * (stages - self.cursor) - 2,
            Phase::Reporting(_) => 1,
            _ => 0,
        };
        by_phase + open_count(self.pipes) + (self.children.len() - self.reaped)
    }

    /// The standard input of the child of a stage: the read end of the
    /// previous pipe, for every stage but the first.
    pub open spec fn child_stdin(self, stage: int) -> Option<i32> {
        if 0 < stage <= self.pipes.len() {
            Some(self.pipes[stage - 1].read)
        } else {
            None
        }
    }

    /// The standard output of the child of a stage: the write end of the
    /// stage's own pipe, for every stage but the last.
    pub open spec fn child_stdout(self, stage: int) -> Option<i32> {
        if 0 <= stage < self.pipes.len() {
            Some(self.pipes[stage].write)
        } else {
            None
        }
    }
}

/// What the child of a stage does to its descriptors before it runs the
/// stage's program.
#[derive(Debug)]
pub struct Wiring {
    /// The descriptor to duplicate onto standard input, if any.
    pub stdin: Option<i32>,
    /// The descriptor to duplicate onto standard output, if any.
    pub stdout: Option<i32>,
    /// The descriptors to close after that: both ends of every pipe.
    pub close: Vec<i32>,
    /// Whether the stage is the last one, whose output the redirections of
    /// the line apply to.
    pub last: bool,
}

/// The state of a pipeline run.
#[derive(Debug)]
pub struct Executor {
    stages: Vec<StageKind>,
    pipes: Vec<PipeEnds>,
    children: Vec<i32>,
    reaped: usize,
    phase: Phase,
    cursor: usize,
    failure: Option<Failure>,
    builtin_done: bool,
}

impl View for Executor {
    type V = Run;

    closed spec fn view(&self) -> Run {
        Run {
            stages: self.stages@,
            pipes: self.pipes@,
            children: self.children@,
            reaped: self.reaped as nat,
            phase: self.phase,
            cursor: self.cursor as nat,
            failure: self.failure,
            builtin_done: self.builtin_done,
        }
    }
}

proof fn lemma_next_stage(stages: Seq<StageKind>, from: nat)
    requires
        from <= stages.len(),
    ensures
        from <= next_stage(stages, from) <= stages.len(),
        next_stage(stages, from) < stages.len() ==> !(stages[next_stage(stages, from) as int]
            is Empty),
        started(stages, next_stage(stages, from) as int) == started(stages, from as int),
    decreases stages.len() - from,
{
    if from < stages.len() && stages[from as int] is Empty {
        lemma_next_stage(stages, from + 1);
    }
}

proof fn lemma_started_bound(stages: Seq<StageKind>, until: int)
    ensures
        started(stages, until) <= until || until <= 0,
    decreases until,
{
    if 0 < until <= stages.len() {
        lemma_started_bound(stages, until - 1);
    }
}

proof fn lemma_first_open(pipes: Seq<PipeEnds>, from: int)
    requires
        0 <= from,
    ensures
        match first_open(pipes, from) {
            Some((k, end)) => from <= k < pipes.len() && holds(pipes[k], end),
            None => forall|k: int|
                from <= k < pipes.len() ==> !(#[trigger] pipes[k]).read_open
                    && !pipes[k].write_open,
        },
    decreases pipes.len() - from,
{
    if from < pipes.len() && !pipes[from].read_open && !pipes[from].write_open {
        lemma_first_open(pipes, from + 1);
    }
}

proof fn lemma_open_count_closed(pipes: Seq<PipeEnds>)
    requires
        all_closed(pipes),
    ensures
        open_count(pipes) == 0,
    decreases pipes.len(),
{
    if pipes.len() > 0 {
        assert(!pipes[pipes.len() - 1].read_open);
        lemma_open_count_closed(pipes.drop_last());
    }
}

proof fn lemma_open_count_release(pipes: Seq<PipeEnds>, k: int, end: End)
    requires
        0 <= k < pipes.len(),
        holds(pipes[k], end),
    ensures
        open_count(pipes.update(k, released(pipes[k], end))) + 1 == open_count(pipes),
    decreases pipes.len(),
{
    let changed = pipes.update(k, released(pipes[k], end));
    if k == pipes.len() - 1 {
        assert(changed.drop_last() =~= pipes.drop_last());
    } else {
        assert(changed.drop_last() =~= pipes.drop_last().update(
            k,
            released(pipes.drop_last()[k], end),
        ));
        lemma_open_count_release(pipes.drop_last(), k, end);
    }
}

proof fn lemma_open_count_push(pipes: Seq<PipeEnds>, pipe: PipeEnds)
    requires
        pipe.read_open,
        pipe.write_open,
    ensures
        open_count(pipes.push(pipe)) == open_count(pipes) + 2,
{
    assert(pipes.push(pipe).drop_last() =~= pipes);
}

/// A run begins in a state of which `wf` holds.
pub proof fn lemma_start_wf(stages: Seq<StageKind>)
    requires
        stages.len() <= usize::MAX,
    ensures
        Run::start(stages).wf(),
{
    lemma_next_stage(stages, 0);
    lemma_first_open(Seq::<PipeEnds>::empty(), 0);
}

/// Whatever the outcome of an action, `wf` goes on to hold.
pub proof fn lemma_step_wf(run: Run, outcome: Outcome)
    requires
        run.wf(),
    ensures
        run.after(outcome).wf(),
{
    if run.fits(outcome) {
        match run.phase {
            Phase::Allocating => {
                if outcome is Opened {
                    let grown = Run {
                        pipes: run.pipes.push(
                            PipeEnds {
                                read: outcome->read,
                                write: outcome->write,
                                read_open: true,
                                write_open: true,
                            },
                        ),
                        ..run
                    };
                    lemma_next_stage(run.stages, 0);
                    lemma_first_open(grown.pipes, 0);
                }
            },
            Phase::Spawning => {
                if outcome is Forked {
                    let grown = Run { children: run.children.push(outcome->pid), ..run };
                    lemma_next_stage(run.stages, run.cursor + 1);
                    lemma_first_open(grown.pipes, 0);
                    lemma_started_bound(run.stages, run.cursor as int + 1);
                }
            },
            Phase::Releasing => {
                let closed = run.close(run.release_target()->0);
                lemma_next_stage(run.stages, run.cursor + 1);
                lemma_first_open(closed.pipes, 0);
            },
            Phase::Reporting(_) => {
                lemma_first_open(run.pipes, 0);
            },
            Phase::Sweeping => {
                lemma_first_open(run.pipes, 0);
                let closed = run.close(first_open(run.pipes, 0)->0);
                lemma_first_open(closed.pipes, 0);
            },
            Phase::Reaping => {},
            Phase::Finished => {},
        }
    }
}

/// Every action brings the end of the run nearer: an outcome that fits
/// makes the potential smaller, and the potential is never negative.
pub proof fn lemma_step_decreases(run: Run, outcome: Outcome)
    requires
        run.wf(),
        run.fits(outcome),
    ensures
        0 <= run.after(outcome).potential() < run.potential(),
{
    lemma_step_wf(run, outcome);
    match run.phase {
        Phase::Allocating => {
            if outcome is Opened {
                let pipe = PipeEnds {
                    read: outcome->read,
                    write: outcome->write,
                    read_open: true,
                    write_open: true,
                };
                lemma_open_count_push(run.pipes, pipe);
                lemma_next_stage(run.stages, 0);
            }
        },
        Phase::Spawning => {
            lemma_next_stage(run.stages, run.cursor + 1);
        },
        Phase::Releasing => {
            let target = run.release_target()->0;
            lemma_open_count_release(run.pipes, target.0, target.1);
            lemma_next_stage(run.stages, run.cursor + 1);
        },
        Phase::Reporting(_) => {},
        Phase::Sweeping => {
            lemma_first_open(run.pipes, 0);
            let target = first_open(run.pipes, 0)->0;
            lemma_open_count_release(run.pipes, target.0, target.1);
        },
        Phase::Reaping => {},
        Phase::Finished => {},
    }
}

/// A run is over exactly when no action but `Finish` is due.
pub proof fn lemma_finish_only_when_finished(run: Run)
    requires
        run.wf(),
    ensures
        run.pending() is Finish <==> run.phase is Finished,
{
}

/// No child and no descriptor is left behind. When a run is over and no
/// built-in command ended it, the parent holds no end of any pipe and has
/// waited for every child that was forked. This is so in particular where
/// a pipe could not be opened or a process could not be forked.
pub proof fn lemma_nothing_left_behind(run: Run)
    requires
        run.wf(),
        run.phase is Finished,
        !run.builtin_done || run.failure is Some,
    ensures
        all_closed(run.pipes),
        open_count(run.pipes) == 0,
        run.reaped == run.children.len(),
{
    lemma_open_count_closed(run.pipes);
}

/// The state after a sequence of outcomes, each taken note of in turn.
pub open spec fn after_all(run: Run, outcomes: Seq<Outcome>) -> Run
    decreases outcomes.len(),
{
    if outcomes.len() == 0 {
        run
    } else {
        after_all(run, outcomes.drop_last()).after(outcomes.last())
    }
}

/// Each of the outcomes fits the action that is due when it comes.
pub open spec fn fit_in_turn(run: Run, outcomes: Seq<Outcome>) -> bool
    decreases outcomes.len(),
{
    if outcomes.len() == 0 {
        true
    } else {
        fit_in_turn(run, outcomes.drop_last()) && after_all(run, outcomes.drop_last()).fits(
            outcomes.last(),
        )
    }
}

/// Whatever the outcomes, `wf` holds of the state that a run has reached.
pub proof fn lemma_reached_wf(stages: Seq<StageKind>, outcomes: Seq<Outcome>)
    requires
        stages.len() <= usize::MAX,
    ensures
        after_all(Run::start(stages), outcomes).wf(),
    decreases outcomes.len(),
{
    if outcomes.len() == 0 {
        lemma_start_wf(stages);
    } else {
        lemma_reached_wf(stages, outcomes.drop_last());
        lemma_step_wf(after_all(Run::start(stages), outcomes.drop_last()), outcomes.last());
    }
}

proof fn lemma_bounded_from(run: Run, outcomes: Seq<Outcome>)
    requires
        run.wf(),
        fit_in_turn(run, outcomes),
    ensures
        after_all(run, outcomes).wf(),
        0 <= after_all(run, outcomes).potential(),
        after_all(run, outcomes).potential() + outcomes.len() <= run.potential(),
    decreases outcomes.len(),
{
    if outcomes.len() > 0 {
        let before = after_all(run, outcomes.drop_last());
        lemma_bounded_from(run, outcomes.drop_last());
        lemma_step_wf(before, outcomes.last());
        lemma_step_decreases(before, outcomes.last());
    }
}

/// Every run ends: a pipeline of N stages takes at most 6 N actions, whatever
/// their outcomes.
pub proof fn lemma_run_is_bounded(stages: Seq<StageKind>, outcomes: Seq<Outcome>)
    requires
        stages.len() <= usize::MAX,
        fit_in_turn(Run::start(stages), outcomes),
    ensures
        outcomes.len() <= 6 * stages.len(),
{
    let start = Run::start(stages);
    lemma_start_wf(stages);
    lemma_bounded_from(start, outcomes);
    lemma_next_stage(stages, 0);
    assert(open_count(Seq::<PipeEnds>::empty()) == 0);
}

/// One process for each stage: when a run is over and nothing failed, as
/// many children were forked as there are stages that are not empty, but
/// for a built-in command in the last stage, which ran in the parent.
pub proof fn lemma_one_child_per_stage(run: Run)
    requires
        run.wf(),
        run.phase is Finished,
        run.failure is None,
    ensures
        run.children.len() + (if run.builtin_done {
            1nat
        } else {
            0nat
        }) == started(run.stages, run.stages.len() as int),
        !run.builtin_done ==> run.reaped == run.children.len(),
{
    if run.builtin_done {
        assert(run.stages.last() == run.stages[run.stages.len() - 1]);
    }
}

/// After a failure no stage is started: neither a fork nor a built-in
/// command is due, and the failure stays on record.
pub proof fn lemma_failure_stops_spawning(run: Run, outcome: Outcome)
    requires
        run.wf(),
        run.failure is Some,
    ensures
        !(run.pending() is Fork),
        !(run.pending() is RunBuiltin),
        !(run.pending() is OpenPipe),
        run.after(outcome).failure == run.failure,
{
}

/// A process is forked only when every pipe of the pipeline is open, and
/// only for a stage that is not empty; a built-in command runs in the
/// parent only as the last stage.
pub proof fn lemma_spawn_conditions(run: Run)
    requires
        run.wf(),
    ensures
        run.pending() matches Action::Fork { stage } ==> run.pipes.len() + 1 == run.stages.len()
            && stage < run.stages.len() && !(run.stages[stage as int] is Empty) && !(stage + 1
            == run.stages.len() && run.stages[stage as int] is Builtin),
        run.pending() matches Action::RunBuiltin { stage } ==> stage + 1 == run.stages.len()
            && run.stages[stage as int] is Builtin,
{
}

/// Neighbouring stages are connected by one pipe: once all pipes are open,
/// the standard output of a stage is the write end, and the standard input
/// of the next stage the read end, of the same pipe.
pub proof fn lemma_neighbours_share_pipe(run: Run, stage: int)
    requires
        run.pipes.len() + 1 == run.stages.len(),
        0 <= stage,
        stage + 1 < run.stages.len(),
    ensures
        run.child_stdout(stage) == Some(run.pipes[stage].write),
        run.child_stdin(stage + 1) == Some(run.pipes[stage].read),
        run.child_stdin(0) is None,
        run.child_stdout(run.stages.len() - 1) is None,
{
}

impl Executor {
    /// Begins the run of a pipeline with the given stages.
    pub fn new(stages: Vec<StageKind>) -> (executor: Self)
        ensures
            executor@ == Run::start(stages@),
            executor@.wf(),
    {
        proof {
            assert(stages@.len() == stages.len());
            lemma_start_wf(stages@);
        }
        let mut executor = Executor {
            stages,
            pipes: Vec::new(),
            children: Vec::new(),
            reaped: 0,
            phase: Phase::Allocating,
            cursor: 0,
            failure: None,
            builtin_done: false,
        };
        executor.to_allocate();
        executor
    }

    fn to_reap(&mut self)
        ensures
            final(self)@ == old(self)@.to_reap(),
    {
        if self.reaped < self.children.len() {
            self.phase = Phase::Reaping;
        } else {
            self.phase = Phase::Finished;
        }
    }

    fn to_sweep(&mut self)
        ensures
            final(self)@ == old(self)@.to_sweep(),
    {
        match self.first_open() {
            Some(_) => {
                self.phase = Phase::Sweeping;
            },
            None => {
                self.to_reap();
            },
        }
    }

    fn to_spawn(&mut self, from: usize)
        ensures
            final(self)@ == old(self)@.to_spawn(from as nat),
    {
        let mut stage = from;
        while stage < self.stages.len() && is_empty_stage(self.stages[stage])
            invariant
                next_stage(self.stages@, stage as nat) == next_stage(self.stages@, from as nat),
            decreases self.stages.len() - stage,
        {
            stage += 1;
        }
        if stage < self.stages.len() {
            self.phase = Phase::Spawning;
            self.cursor = stage;
        } else {
            self.to_sweep();
        }
    }

    fn to_release(&mut self)
        ensures
            final(self)@ == old(self)@.to_release(),
    {
        match self.release_target() {
            Some(_) => {
                self.phase = Phase::Releasing;
            },
            None => {
                if self.cursor < self.stages.len() {
                    self.to_spawn(self.cursor + 1);
                } else {
                    assert(next_stage(self.stages@, self.cursor as nat + 1) == self.stages@.len());
                    self.to_sweep();
                }
            },
        }
    }

    fn to_allocate(&mut self)
        ensures
            final(self)@ == old(self)@.to_allocate(),
    {
        let needed = if self.stages.len() == 0 {
            0
        } else {
            self.stages.len() - 1
        };
        if self.pipes.len() < needed {
            self.phase = Phase::Allocating;
        } else {
            self.to_spawn(0);
        }
    }

    fn first_open(&self) -> (target: Option<(usize, End)>)
        ensures
            match target {
                Some((k, end)) => first_open(self@.pipes, 0) == Some((k as int, end)),
                None => first_open(self@.pipes, 0) is None,
            },
    {
        let mut k: usize = 0;
        while k < self.pipes.len()
            invariant
                k <= self.pipes.len(),
                first_open(self.pipes@, k as int) == first_open(self.pipes@, 0),
            decreases self.pipes.len() - k,
        {
            if self.pipes[k].read_open {
                return Some((k, End::Read));
            }
            if self.pipes[k].write_open {
                return Some((k, End::Write));
            }
            k += 1;
        }
        None
    }

    fn release_target(&self) -> (target: Option<(usize, End)>)
        ensures
            match target {
                Some((k, end)) => self@.release_target() == Some((k as int, end)),
                None => self@.release_target() is None,
            },
    {
        if 0 < self.cursor && self.cursor <= self.pipes.len() && self.pipes[self.cursor
            - 1].read_open {
            Some((self.cursor - 1, End::Read))
        } else if self.cursor < self.pipes.len() && self.pipes[self.cursor].write_open {
            Some((self.cursor, End::Write))
        } else {
            None
        }
    }

    fn close(&mut self, k: usize, end: End)
        requires
            k < old(self)@.pipes.len(),
        ensures
            final(self)@ == old(self)@.close((k as int, end)),
    {
        let pipe = self.pipes[k];
        let changed = match end {
            End::Read => PipeEnds {
                read: pipe.read,
                write: pipe.write,
                read_open: false,
                write_open: pipe.write_open,
            },
            End::Write => PipeEnds {
                read: pipe.read,
                write: pipe.write,
                read_open: pipe.read_open,
                write_open: false,
            },
        };
        self.pipes.set(k, changed);
    }

    fn descriptor(&self, k: usize, end: End) -> (fd: i32)
        requires
            k < self@.pipes.len(),
        ensures
            fd == descriptor(self@.pipes[k as int], end),
    {
        match end {
            End::Read => self.pipes[k].read,
            End::Write => self.pipes[k].write,
        }
    }

    /// The action that is due.
    pub fn pending(&self) -> (action: Action)
        ensures
            action == self@.pending(),
    {
        match self.phase {
            Phase::Allocating => Action::OpenPipe,
            Phase::Spawning => {
                if self.cursor < self.stages.len() && self.cursor + 1 == self.stages.len()
                    && is_builtin_stage(self.stages[self.cursor]) {
                    Action::RunBuiltin { stage: self.cursor }
                } else {
                    Action::Fork { stage: self.cursor }
                }
            },
            Phase::Releasing => match self.release_target() {
                Some((k, end)) => Action::Close { fd: self.descriptor(k, end) },
                None => Action::Finish,
            },
            Phase::Reporting(failure) => Action::Report { failure },
            Phase::Sweeping => {
                proof {
                    lemma_first_open(self@.pipes, 0);
                }
                match self.first_open() {
                    Some((k, end)) => Action::Close { fd: self.descriptor(k, end) },
                    None => Action::Finish,
                }
            },
            Phase::Reaping => {
                if self.reaped < self.children.len() {
                    Action::Wait { pid: self.children[self.reaped] }
                } else {
                    Action::Finish
                }
            },
            Phase::Finished => Action::Finish,
        }
    }

    /// Takes note of the outcome of the action that was due and goes on to
    /// the next action. Returns whether the outcome fits the action; one
    /// that does not changes nothing.
    pub fn record(&mut self, outcome: Outcome) -> (accepted: bool)
        ensures
            accepted == old(self)@.fits(outcome),
            final(self)@ == old(self)@.after(outcome),
            old(self)@.wf() ==> final(self)@.wf(),
            old(self)@.wf() && accepted ==> final(self)@.potential() < old(self)@.potential(),
    {
        proof {
            if self@.wf() {
                lemma_step_wf(self@, outcome);
                if self@.fits(outcome) {
                    lemma_step_decreases(self@, outcome);
                }
            }
        }
        let action = self.pending();
        match (action, outcome) {
            (Action::OpenPipe, Outcome::Opened { read, write }) => {
                self.pipes.push(PipeEnds { read, write, read_open: true, write_open: true });
                self.to_allocate();
                true
            },
            (Action::OpenPipe, Outcome::Failed) => {
                self.phase = Phase::Reporting(Failure::Pipe);
                self.failure = Some(Failure::Pipe);
                true
            },
            (Action::Fork { .. }, Outcome::Forked { pid }) => {
                self.children.push(pid);
                self.to_release();
                true
            },
            (Action::Fork { .. }, Outcome::Failed) => {
                self.phase = Phase::Reporting(Failure::Fork);
                self.failure = Some(Failure::Fork);
                true
            },
            (Action::RunBuiltin { .. }, Outcome::Done) => {
                self.phase = Phase::Finished;
                self.builtin_done = true;
                true
            },
            (Action::Report { .. }, Outcome::Done) => {
                self.to_sweep();
                true
            },
            (Action::Wait { .. }, Outcome::Done) => {
                assert(self@.phase is Reaping && self@.reaped < self@.children.len());
                assert(self@.children.len() == self.children.len());
                self.reaped = self.reaped + 1;
                self.to_reap();
                true
            },
            (Action::Close { .. }, Outcome::Done) => {
                match self.phase {
                    Phase::Releasing => {
                        match self.release_target() {
                            Some((k, end)) => {
                                self.close(k, end);
                                self.to_release();
                            },
                            None => {},
                        }
                    },
                    _ => {
                        proof {
                            lemma_first_open(self@.pipes, 0);
                        }
                        match self.first_open() {
                            Some((k, end)) => {
                                self.close(k, end);
                                self.to_sweep();
                            },
                            None => {},
                        }
                    },
                }
                true
            },
            _ => false,
        }
    }

    /// What the child of `stage` does to its descriptors: it takes the read
    /// end of the previous pipe as standard input (not the first stage), the
    /// write end of its own pipe as standard output (not the last stage),
    /// and then closes both ends of every pipe.
    pub fn wiring(&self, stage: usize) -> (wiring: Wiring)
        ensures
            wiring.stdin == self@.child_stdin(stage as int),
            wiring.stdout == self@.child_stdout(stage as int),
            wiring.close@ == all_descriptors(self@.pipes),
            wiring.last == (stage + 1 == self@.stages.len()),
    {
        let stdin = if 0 < stage && stage <= self.pipes.len() {
            Some(self.pipes[stage - 1].read)
        } else {
            None
        };
        let stdout = if stage < self.pipes.len() {
            Some(self.pipes[stage].write)
        } else {
            None
        };
        let mut close: Vec<i32> = Vec::new();
        let mut k: usize = 0;
        assert(self.pipes@.take(0) =~= Seq::<PipeEnds>::empty());
        while k < self.pipes.len()
            invariant
                k <= self.pipes.len(),
                close@ == all_descriptors(self.pipes@.take(k as int)),
            decreases self.pipes.len() - k,
        {
            assert(self.pipes@.take(k + 1).drop_last() =~= self.pipes@.take(k as int));
            close.push(self.pipes[k].read);
            close.push(self.pipes[k].write);
            k += 1;
        }
        assert(self.pipes@.take(k as int) =~= self.pipes@);
        let last = stage < self.stages.len() && stage + 1 == self.stages.len();
        Wiring { stdin, stdout, close, last }
    }

    /// Whether the run is over.
    pub fn finished(&self) -> (over: bool)
        ensures
            over == (self@.phase is Finished),
    {
        match self.phase {
            Phase::Finished => true,
            _ => false,
        }
    }

    /// The failure that ended the starting of stages, if any.
    pub fn failure(&self) -> (failure: Option<Failure>)
        ensures
            failure == self@.failure,
    {
        self.failure
    }

    /// Whether the parent still holds an end of a pipe.
    pub fn holds_descriptors(&self) -> (held: bool)
        ensures
            held == !all_closed(self@.pipes),
    {
        proof {
            lemma_first_open(self@.pipes, 0);
        }
        match self.first_open() {
            Some(_) => true,
            None => false,
        }
    }

    /// The number of children that were forked and not yet waited for.
    pub fn unreaped(&self) -> (count: usize)
        ensures
            count == (if self@.reaped <= self@.children.len() {
                self@.children.len() - self@.reaped
            } else {
                0
            }),
    {
        if self.reaped <= self.children.len() {
            self.children.len() - self.reaped
        } else {
            0
        }
    }
}

fn is_empty_stage(kind: StageKind) -> (empty: bool)
    ensures
        empty == (kind is Empty),
{
    match kind {
        StageKind::Empty => true,
        _ => false,
    }
}

fn is_builtin_stage(kind: StageKind) -> (builtin: bool)
    ensures
        builtin == (kind is Builtin),
{
    match kind {
        StageKind::Builtin => true,
        _ => false,
    }
}

} // verus!
