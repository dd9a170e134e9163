//! Pipelines: cutting a line's words into stages at each `|`, and deciding
//! how the stages are connected.

use vstd::prelude::*;
use crate::builtins::{classify_command, command_type_of, CommandType};
use crate::text::{
    all_nonempty, chars_of, flush, lemma_runs_are_clean, lemma_runs_of_one, runs, runs_from,
    spells,
};

verus! {

/// Where a stage's standard input comes from.
#[derive(Clone, Copy, Debug, PartialEq, Eq, Structural)]
pub enum Source {
    /// The stage reads no input; what the stage before it left is dropped.
    Nothing,
    /// The shell's own standard input.
    Terminal,
    /// The buffered output of the builtin before it, written into a pipe
    /// whose writing end is closed afterwards.
    Buffer,
    /// The reading end of the pipe that the external program before it
    /// writes to.
    Pipe,
}

/// Where a stage's standard output goes.
#[derive(Clone, Copy, Debug, PartialEq, Eq, Structural)]
pub enum Sink {
    /// The shell's own standard output.
    Terminal,
    /// A buffer that is kept for the next stage.
    Buffer,
    /// A pipe whose reading end is kept for the next stage.
    Pipe,
}

/// How one stage is run: inside the shell or as a process, and with which
/// connections.
#[derive(Clone, Copy, Debug, PartialEq, Eq, Structural)]
pub struct Step {
    pub kind: CommandType,
    pub reads: Source,
    pub writes: Sink,
}

/// One stage of a pipeline.
#[derive(Clone, Debug, PartialEq, Eq)]
pub struct Stage {
    pub program: String,
    pub args: Vec<String>,
    pub step: Step,
}

/// The word that separates the stages.
pub open spec fn bar() -> Seq<char> {
    "|"@
}

/// The stages of a line's words: the non-empty runs of words between bars.
pub open spec fn stages_of(tokens: Seq<Seq<char>>) -> Seq<Seq<Seq<char>>> {
    runs(tokens, bar())
}

/// The step of a stage of kind `kind`, given the kind of the stage before
/// it, if there is one, and whether it is the last.
///
/// A builtin reads nothing. An external program reads the terminal when it
/// is first, else what the stage before it left: a buffer after a builtin, a
/// pipe after an external program. The last stage writes to the terminal;
/// any other leaves a buffer when it is a builtin and a pipe when it is not.
pub open spec fn step_of(kind: CommandType, before: Option<CommandType>, last: bool) -> Step {
    Step {
        kind,
        reads: match kind {
            CommandType::Builtin => Source::Nothing,
            CommandType::External => match before {
                None => Source::Terminal,
                Some(CommandType::Builtin) => Source::Buffer,
                Some(CommandType::External) => Source::Pipe,
            },
        },
        writes: if last {
            Sink::Terminal
        } else {
            match kind {
                CommandType::Builtin => Sink::Buffer,
                CommandType::External => Sink::Pipe,
            }
        },
    }
}

/// The step of stage `at` in a pipeline whose stages have the kinds `kinds`.
pub open spec fn step_at(kinds: Seq<CommandType>, at: int) -> Step {
    step_of(
        kinds[at],
        if at == 0 {
            None
        } else {
            Some(kinds[at - 1])
        },
        at + 1 == kinds.len(),
    )
}

/// The step of a command that is run on its own, outside any pipeline.
pub open spec fn direct_step(kind: CommandType) -> Step {
    Step {
        kind,
        reads: match kind {
            CommandType::Builtin => Source::Nothing,
            CommandType::External => Source::Terminal,
        },
        writes: Sink::Terminal,
    }
}

/// The kinds of the stages `stages`, each by its program name.
pub open spec fn kinds_of(stages: Seq<Seq<Seq<char>>>) -> Seq<CommandType> {
    Seq::new(stages.len(), |i: int| command_type_of(stages[i][0]))
}

/// Whether a bar stands among `tokens`.
pub fn has_pipe(tokens: &Vec<String>) -> (found: bool)
    ensures
        found == tokens.deep_view().contains(bar()),
{
    let mut at: usize = 0;
    while at < tokens.len()
        invariant
            at <= tokens.len(),
            forall|i: int| 0 <= i < at ==> tokens.deep_view()[i] != bar(),
        decreases tokens.len() - at,
    {
        assert(tokens.deep_view()[at as int] == tokens[at as int]@);
        let word = chars_of(tokens[at].as_str());
        if spells(&word, "|") {
            return true;
        }
        at += 1;
    }
    false
}

/// Cuts `tokens` into stages at each bar. Empty stages are left out.
pub fn split_stages(tokens: &Vec<String>) -> (stages: Vec<Vec<String>>)
    ensures
        stages.deep_view() == stages_of(tokens.deep_view()),
        forall|i: int| 0 <= i < stages.len() ==> stages[i].len() > 0,
{
    let ghost all = tokens.deep_view();
    let mut stages: Vec<Vec<String>> = Vec::new();
    let mut stage: Vec<String> = Vec::new();
    let mut at: usize = 0;
    assert(stage.deep_view() =~= Seq::<Seq<char>>::empty());
    assert(stages.deep_view() + stages_of(all) =~= stages_of(all));
    while at < tokens.len()
        invariant
            at <= tokens.len(),
            all == tokens.deep_view(),
            stages_of(all) == stages.deep_view() + runs_from(
                all,
                bar(),
                at as int,
                stage.deep_view(),
            ),
            forall|i: int| 0 <= i < stages.len() ==> stages[i].len() > 0,
        decreases tokens.len() - at,
    {
        assert(all[at as int] == tokens[at as int]@);
        let ghost before = stages.deep_view();
        let ghost pending = stage.deep_view();
        let word = chars_of(tokens[at].as_str());
        if spells(&word, "|") {
            let ghost rest = runs_from(all, bar(), at + 1, Seq::empty());
            if stage.len() > 0 {
                stages.push(stage);
                stage = Vec::new();
                assert(stages.deep_view() =~= before.push(pending));
                assert(before.push(pending) + rest =~= before + (flush(pending) + rest));
            } else {
                assert(pending =~= Seq::<Seq<char>>::empty());
                assert(before + rest =~= before + (flush(pending) + rest));
            }
            assert(stage.deep_view() =~= Seq::<Seq<char>>::empty());
        } else {
            let copy = tokens[at].clone();
            assert(copy@ == all[at as int]);
            stage.push(copy);
            assert(stage.deep_view() =~= pending.push(all[at as int]));
        }
        at += 1;
    }
    let ghost before = stages.deep_view();
    let ghost pending = stage.deep_view();
    if stage.len() > 0 {
        stages.push(stage);
        assert(stages.deep_view() =~= before + flush(pending));
    } else {
        assert(stages.deep_view() =~= before + flush(pending));
    }
    stages
}

/// The step of a stage of kind `kind`, given the kind of the stage before it
/// and whether it is the last.
pub fn wire(kind: CommandType, before: Option<CommandType>, last: bool) -> (step: Step)
    ensures
        step == step_of(kind, before, last),
{
    let reads = match kind {
        CommandType::Builtin => Source::Nothing,
        CommandType::External => match before {
            None => Source::Terminal,
            Some(CommandType::Builtin) => Source::Buffer,
            Some(CommandType::External) => Source::Pipe,
        },
    };
    let writes = if last {
        Sink::Terminal
    } else {
        match kind {
            CommandType::Builtin => Sink::Buffer,
            CommandType::External => Sink::Pipe,
        }
    };
    Step { kind, reads, writes }
}

/// Whether `plan` is the pipeline that `tokens` write: its stages in order,
/// each with its program, its arguments and its connections.
pub open spec fn plans(plan: Seq<Stage>, tokens: Seq<Seq<char>>) -> bool {
    &&& plan.len() == stages_of(tokens).len()
    &&& forall|i: int|
        #![trigger plan[i]]
        0 <= i < plan.len() ==> {
            &&& plan[i].program@ == stages_of(tokens)[i][0]
            &&& plan[i].args.deep_view() == stages_of(tokens)[i].skip(1)
            &&& plan[i].step == step_at(kinds_of(stages_of(tokens)), i)
        }
}

/// Plans the pipeline that `tokens` write.
pub fn plan_pipeline(tokens: &Vec<String>) -> (plan: Vec<Stage>)
    ensures
        plans(plan@, tokens.deep_view()),
{
    let mut stages = split_stages(tokens);
    let ghost all = stages.deep_view();
    let count = stages.len();
    let mut plan: Vec<Stage> = Vec::new();
    let mut before: Option<CommandType> = None;
    let mut at: usize = 0;
    while at < count
        invariant
            at <= count,
            count == stages.len(),
            all == stages.deep_view(),
            forall|i: int| 0 <= i < stages.len() ==> stages[i].len() > 0,
            plan.len() == at,
            before == (if at == 0 {
                None
            } else {
                Some(kinds_of(all)[at - 1])
            }),
            forall|i: int|
                #![trigger plan[i]]
                0 <= i < at ==> {
                    &&& plan[i].program@ == all[i][0]
                    &&& plan[i].args.deep_view() == all[i].skip(1)
                    &&& plan[i].step == step_at(kinds_of(all), i)
                },
        decreases count - at,
    {
        let mut words = stages[at].clone();
        assert(words.deep_view() == all[at as int]) by {
            assert(words@ == stages[at as int]@);
            assert(words.deep_view() =~= stages[at as int].deep_view());
        }
        let program = words.remove(0);
        assert(program@ == all[at as int][0]);
        assert(words.deep_view() =~= all[at as int].skip(1));
        let kind = classify_command(program.as_str());
        let step = wire(kind, before, at + 1 == count);
        plan.push(Stage { program, args: words, step });
        before = Some(kind);
        at += 1;
    }
    plan
}

/// How many processes a run has started so far.
#[derive(Clone, Copy, Debug, PartialEq, Eq, Structural)]
pub enum Processes {
    Zero,
    One,
    Several,
}

/// How far the run of a pipeline has come.
#[derive(Clone, Copy, Debug, PartialEq, Eq, Structural)]
pub enum Progress {
    /// The stages before `next` are started.
    Starting { next: usize, processes: Processes },
    /// Every stage is started, and the last process is being waited for.
    Waiting { processes: Processes },
    /// The last process has ended, and the others are being ended.
    Ending,
    /// Nothing is left to do.
    Finished,
}

/// What is done next in the run of a pipeline.
#[derive(Clone, Copy, Debug, PartialEq, Eq, Structural)]
pub enum Action {
    /// Run the builtin of this stage and pass its output on.
    RunBuiltin(usize),
    /// Start the program of this stage with its connections.
    Spawn(usize),
    /// Wait until the process that was started last has ended.
    WaitForLast,
    /// End every other process and wait for it.
    EndOthers,
    /// Return to the prompt.
    Finish,
}

/// The kinds of the stages of `plan`.
pub open spec fn kinds_in(plan: Seq<Stage>) -> Seq<CommandType> {
    Seq::new(plan.len(), |i: int| plan[i].step.kind)
}

/// One process more.
pub open spec fn one_more(processes: Processes) -> Processes {
    match processes {
        Processes::Zero => Processes::One,
        _ => Processes::Several,
    }
}

/// The next action of a run. The stages are started from left to right;
/// then the last process is waited for, if there is one; then the others
/// are ended, if there are any.
pub open spec fn action_of(progress: Progress, kinds: Seq<CommandType>) -> Action {
    match progress {
        Progress::Starting { next, processes } => if next < kinds.len() {
            match kinds[next as int] {
                CommandType::Builtin => Action::RunBuiltin(next),
                CommandType::External => Action::Spawn(next),
            }
        } else if processes != Processes::Zero {
            Action::WaitForLast
        } else {
            Action::Finish
        },
        Progress::Waiting { processes } => if processes == Processes::Several {
            Action::EndOthers
        } else {
            Action::Finish
        },
        Progress::Ending => Action::Finish,
        Progress::Finished => Action::Finish,
    }
}

/// Where a run stands after its next action was carried out. `failed` says
/// that a program could not be started, which ends the run at once.
pub open spec fn progress_after(
    progress: Progress,
    kinds: Seq<CommandType>,
    failed: bool,
) -> Progress {
    match action_of(progress, kinds) {
        Action::RunBuiltin(at) => Progress::Starting {
            next: (at + 1) as usize,
            processes: progress->Starting_processes,
        },
        Action::Spawn(at) => if failed {
            Progress::Finished
        } else {
            Progress::Starting {
                next: (at + 1) as usize,
                processes: one_more(progress->Starting_processes),
            }
        },
        Action::WaitForLast => Progress::Waiting { processes: progress->Starting_processes },
        Action::EndOthers => Progress::Ending,
        Action::Finish => Progress::Finished,
    }
}

/// An upper bound on the number of actions that a run still takes.
pub open spec fn actions_left(progress: Progress, kinds: Seq<CommandType>) -> nat {
    match progress {
        Progress::Starting { next, processes } => if next < kinds.len() {
            (kinds.len() - next + 3) as nat
        } else {
            3
        },
        Progress::Waiting { processes } => 2,
        Progress::Ending => 1,
        Progress::Finished => 0,
    }
}

/// The start of a run: no stage is started yet.
pub fn begin() -> (progress: Progress)
    ensures
        progress == (Progress::Starting { next: 0, processes: Processes::Zero }),
{
    Progress::Starting { next: 0, processes: Processes::Zero }
}

/// The next action in the run of `plan`.
pub fn action(progress: Progress, plan: &Vec<Stage>) -> (action: Action)
    ensures
        action == action_of(progress, kinds_in(plan@)),
{
    match progress {
        Progress::Starting { next, processes } => {
            if next < plan.len() {
                match plan[next].step.kind {
                    CommandType::Builtin => Action::RunBuiltin(next),
                    CommandType::External => Action::Spawn(next),
                }
            } else {
                match processes {
                    Processes::Zero => Action::Finish,
                    _ => Action::WaitForLast,
                }
            }
        },
        Progress::Waiting { processes } => match processes {
            Processes::Several => Action::EndOthers,
            _ => Action::Finish,
        },
        Progress::Ending => Action::Finish,
        Progress::Finished => Action::Finish,
    }
}

/// Where the run of `plan` stands after its next action was carried out.
pub fn advance(progress: Progress, plan: &Vec<Stage>, failed: bool) -> (later: Progress)
    ensures
        later == progress_after(progress, kinds_in(plan@), failed),
{
    match progress {
        Progress::Starting { next, processes } => {
            if next < plan.len() {
                match plan[next].step.kind {
                    CommandType::Builtin => Progress::Starting { next: next + 1, processes },
                    CommandType::External => {
                        if failed {
                            Progress::Finished
                        } else {
                            let grown = match processes {
                                Processes::Zero => Processes::One,
                                _ => Processes::Several,
                            };
                            Progress::Starting { next: next + 1, processes: grown }
                        }
                    },
                }
            } else {
                match processes {
                    Processes::Zero => Progress::Finished,
                    _ => Progress::Waiting { processes },
                }
            }
        },
        Progress::Waiting { processes } => match processes {
            Processes::Several => Progress::Ending,
            _ => Progress::Finished,
        },
        Progress::Ending => Progress::Finished,
        Progress::Finished => Progress::Finished,
    }
}

/// Every run comes to its end: each action but the last brings it nearer,
/// and a run that has finished stays finished.
pub proof fn lemma_run_comes_to_an_end(progress: Progress, kinds: Seq<CommandType>, failed: bool)
    requires
        kinds.len() <= usize::MAX,
    ensures
        progress != Progress::Finished ==> actions_left(
            progress_after(progress, kinds, failed),
            kinds,
        ) < actions_left(progress, kinds),
        actions_left(progress, kinds) == 0 <==> progress == Progress::Finished,
        progress == Progress::Finished ==> progress_after(progress, kinds, failed)
            == Progress::Finished,
{
}

/// The stages are started in their order: while stages are left, the next
/// action starts the first of them, and after it the next stage is due.
/// Only a program that cannot be started breaks the run off.
pub proof fn lemma_stages_start_in_order(
    next: usize,
    processes: Processes,
    kinds: Seq<CommandType>,
    failed: bool,
)
    requires
        next < kinds.len() <= usize::MAX,
    ensures
        ({
            let progress = Progress::Starting { next, processes };
            let action = action_of(progress, kinds);
            let later = progress_after(progress, kinds, failed);
            &&& action == Action::RunBuiltin(next) || action == Action::Spawn(next)
            &&& action == Action::RunBuiltin(next) <==> kinds[next as int] == CommandType::Builtin
            &&& later == Progress::Finished <==> (failed && action == Action::Spawn(next))
            &&& later != Progress::Finished ==> later is Starting && later->Starting_next == next
                + 1
        }),
{
}

/// A pipeline is not left before the last process that it started has been
/// waited for, and the other processes are ended only after that.
pub proof fn lemma_last_process_is_awaited(
    processes: Processes,
    kinds: Seq<CommandType>,
    next: usize,
)
    requires
        next >= kinds.len(),
        processes != Processes::Zero,
    ensures
        ({
            let progress = Progress::Starting { next, processes };
            let waiting = progress_after(progress, kinds, false);
            &&& action_of(progress, kinds) == Action::WaitForLast
            &&& waiting == Progress::Waiting { processes }
            &&& action_of(waiting, kinds) == Action::EndOthers <==> processes
                == Processes::Several
        }),
{
}

/// A pipeline of one stage runs that stage as the command would run on its
/// own.
pub proof fn lemma_single_stage_is_direct(kind: CommandType)
    ensures
        step_at(seq![kind], 0) == direct_step(kind),
{
}

/// Words without a bar make one stage, the command itself; a bar at the end
/// adds none.
pub proof fn lemma_one_command_is_one_stage(tokens: Seq<Seq<char>>)
    requires
        tokens.len() > 0,
        !tokens.contains(bar()),
    ensures
        stages_of(tokens) == seq![tokens],
        stages_of(tokens.push(bar())) == seq![tokens],
{
    lemma_runs_of_one(tokens, bar());
    crate::text::lemma_runs_first(tokens, bar(), Seq::empty());
    assert(tokens + seq![bar()] + Seq::<Seq<char>>::empty() =~= tokens.push(bar()));
    assert(runs(Seq::<Seq<char>>::empty(), bar()) =~= Seq::<Seq<Seq<char>>>::empty());
    assert(seq![tokens] + Seq::<Seq<Seq<char>>>::empty() =~= seq![tokens]);
}

/// Every stage has a program name, and no stage holds a bar.
pub proof fn lemma_stages_are_commands(tokens: Seq<Seq<char>>)
    ensures
        all_nonempty(stages_of(tokens)),
        crate::text::all_free_of(stages_of(tokens), bar()),
{
    lemma_runs_are_clean(tokens, bar());
}

/// Neighbouring stages agree on their connection: an external stage reads
/// what the stage before it writes, only the last stage writes to the
/// terminal, and after the first stage none reads from it.
pub proof fn lemma_neighbours_agree(kinds: Seq<CommandType>, at: int)
    requires
        0 <= at < kinds.len(),
    ensures
        (step_at(kinds, at).writes == Sink::Terminal) <==> at + 1 == kinds.len(),
        (step_at(kinds, at).reads == Source::Terminal) ==> at == 0,
        at + 1 < kinds.len() && kinds[at + 1] == CommandType::External ==> {
            &&& step_at(kinds, at).writes == Sink::Buffer <==> step_at(kinds, at + 1).reads
                == Source::Buffer
            &&& step_at(kinds, at).writes == Sink::Pipe <==> step_at(kinds, at + 1).reads
                == Source::Pipe
        },
{
}

} // verus!
