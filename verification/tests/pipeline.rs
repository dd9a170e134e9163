use shell_core::builtins::CommandType;
use shell_core::pipeline::{
    action, advance, begin, has_pipe, plan_pipeline, split_stages, wire, Action, Processes, Progress,
    Sink, Source, Stage, Step,
};

fn tokens_of(words: &[&str]) -> Vec<String> {
    words.iter().map(|w| w.to_string()).collect()
}

fn stage(program: &str, args: &[&str], kind: CommandType, reads: Source, writes: Sink) -> Stage {
    Stage { program: program.to_string(), args: tokens_of(args), step: Step { kind, reads, writes } }
}

#[test]
fn a_bar_among_the_words_is_found() {
    assert!(has_pipe(&tokens_of(&["echo", "a", "|", "wc"])));
    assert!(has_pipe(&tokens_of(&["|"])));
    assert!(!has_pipe(&tokens_of(&["echo", "a|b", "||", "|x"])));
    assert!(!has_pipe(&tokens_of(&[])));
}

#[test]
fn words_are_cut_at_each_bar() {
    assert_eq!(
        split_stages(&tokens_of(&["cat", "f", "|", "sort", "-r", "|", "head"])),
        vec![tokens_of(&["cat", "f"]), tokens_of(&["sort", "-r"]), tokens_of(&["head"])]
    );
}

#[test]
fn empty_stages_are_left_out() {
    assert_eq!(split_stages(&tokens_of(&["|", "wc"])), vec![tokens_of(&["wc"])]);
    assert_eq!(split_stages(&tokens_of(&["ls", "|"])), vec![tokens_of(&["ls"])]);
    assert_eq!(split_stages(&tokens_of(&["ls", "|", "|", "wc"])), vec![
        tokens_of(&["ls"]),
        tokens_of(&["wc"])
    ]);
    assert_eq!(split_stages(&tokens_of(&["|", "|"])), Vec::<Vec<String>>::new());
    assert_eq!(split_stages(&tokens_of(&[])), Vec::<Vec<String>>::new());
}

#[test]
fn words_without_bar_are_one_stage() {
    assert_eq!(split_stages(&tokens_of(&["echo", "a", "b"])), vec![tokens_of(&["echo", "a", "b"])]);
}

#[test]
fn a_quoted_bar_inside_a_word_does_not_cut() {
    assert_eq!(
        split_stages(&tokens_of(&["echo", "a|b", "|", "wc"])),
        vec![tokens_of(&["echo", "a|b"]), tokens_of(&["wc"])]
    );
}

#[test]
fn echo_into_wc() {
    let plan = plan_pipeline(&tokens_of(&["echo", "a", "|", "wc", "-c"]));
    assert_eq!(
        plan,
        vec![
            stage("echo", &["a"], CommandType::Builtin, Source::Nothing, Sink::Buffer),
            stage("wc", &["-c"], CommandType::External, Source::Buffer, Sink::Terminal),
        ]
    );
}

#[test]
fn external_programs_are_joined_by_pipes() {
    let plan = plan_pipeline(&tokens_of(&["cat", "f", "|", "sort", "|", "head", "-1"]));
    assert_eq!(
        plan,
        vec![
            stage("cat", &["f"], CommandType::External, Source::Terminal, Sink::Pipe),
            stage("sort", &[], CommandType::External, Source::Pipe, Sink::Pipe),
            stage("head", &["-1"], CommandType::External, Source::Pipe, Sink::Terminal),
        ]
    );
}

#[test]
fn a_builtin_in_the_middle_drops_what_came_before() {
    let plan = plan_pipeline(&tokens_of(&["ls", "|", "echo", "hi", "|", "wc"]));
    assert_eq!(
        plan,
        vec![
            stage("ls", &[], CommandType::External, Source::Terminal, Sink::Pipe),
            stage("echo", &["hi"], CommandType::Builtin, Source::Nothing, Sink::Buffer),
            stage("wc", &[], CommandType::External, Source::Buffer, Sink::Terminal),
        ]
    );
}

#[test]
fn a_builtin_at_the_end_writes_to_the_terminal() {
    let plan = plan_pipeline(&tokens_of(&["ls", "|", "type", "ls"]));
    assert_eq!(
        plan,
        vec![
            stage("ls", &[], CommandType::External, Source::Terminal, Sink::Pipe),
            stage("type", &["ls"], CommandType::Builtin, Source::Nothing, Sink::Terminal),
        ]
    );
}

#[test]
fn a_pipeline_of_one_stage_runs_the_command_directly() {
    assert_eq!(
        plan_pipeline(&tokens_of(&["echo", "a", "|"])),
        vec![stage("echo", &["a"], CommandType::Builtin, Source::Nothing, Sink::Terminal)]
    );
    assert_eq!(
        plan_pipeline(&tokens_of(&["|", "ls", "-l"])),
        vec![stage("ls", &["-l"], CommandType::External, Source::Terminal, Sink::Terminal)]
    );
    assert_eq!(
        plan_pipeline(&tokens_of(&["ls", "-l"])),
        vec![stage("ls", &["-l"], CommandType::External, Source::Terminal, Sink::Terminal)]
    );
}

#[test]
fn a_pipeline_without_stages_is_empty() {
    assert_eq!(plan_pipeline(&tokens_of(&["|"])), Vec::<Stage>::new());
}

#[test]
fn redirection_operators_stay_arguments_inside_a_pipeline() {
    let plan = plan_pipeline(&tokens_of(&["echo", "a", ">", "f", "|", "wc"]));
    assert_eq!(plan[0].args, tokens_of(&["a", ">", "f"]));
}

#[test]
fn wiring_of_every_case() {
    let b = CommandType::Builtin;
    let e = CommandType::External;
    let step = |kind, reads, writes| Step { kind, reads, writes };
    for before in [None, Some(b), Some(e)] {
        assert_eq!(wire(b, before, true), step(b, Source::Nothing, Sink::Terminal));
        assert_eq!(wire(b, before, false), step(b, Source::Nothing, Sink::Buffer));
    }
    assert_eq!(wire(e, None, true), step(e, Source::Terminal, Sink::Terminal));
    assert_eq!(wire(e, None, false), step(e, Source::Terminal, Sink::Pipe));
    assert_eq!(wire(e, Some(b), true), step(e, Source::Buffer, Sink::Terminal));
    assert_eq!(wire(e, Some(b), false), step(e, Source::Buffer, Sink::Pipe));
    assert_eq!(wire(e, Some(e), true), step(e, Source::Pipe, Sink::Terminal));
    assert_eq!(wire(e, Some(e), false), step(e, Source::Pipe, Sink::Pipe));
}

fn actions_of(words: &[&str], fails_at: Option<usize>) -> Vec<Action> {
    let plan = plan_pipeline(&tokens_of(words));
    let mut progress = begin();
    let mut actions = Vec::new();
    loop {
        let next = action(progress, &plan);
        actions.push(next);
        if next == Action::Finish {
            assert_eq!(advance(progress, &plan, false), Progress::Finished);
            return actions;
        }
        progress = advance(progress, &plan, Some(next) == fails_at.map(Action::Spawn));
        assert!(actions.len() <= plan.len() + 3);
    }
}

#[test]
fn a_run_begins_with_nothing_started() {
    assert_eq!(begin(), Progress::Starting { next: 0, processes: Processes::Zero });
}

#[test]
fn a_run_starts_every_stage_then_waits_then_ends_the_others() {
    assert_eq!(
        actions_of(&["cat", "f", "|", "sort", "|", "head"], None),
        vec![
            Action::Spawn(0),
            Action::Spawn(1),
            Action::Spawn(2),
            Action::WaitForLast,
            Action::EndOthers,
            Action::Finish
        ]
    );
}

#[test]
fn a_run_of_one_process_ends_nothing_else() {
    assert_eq!(
        actions_of(&["echo", "a", "|", "wc", "-c"], None),
        vec![Action::RunBuiltin(0), Action::Spawn(1), Action::WaitForLast, Action::Finish]
    );
}

#[test]
fn a_run_of_builtins_waits_for_nothing() {
    assert_eq!(
        actions_of(&["echo", "a", "|", "type", "echo"], None),
        vec![Action::RunBuiltin(0), Action::RunBuiltin(1), Action::Finish]
    );
    assert_eq!(actions_of(&["|"], None), vec![Action::Finish]);
}

#[test]
fn a_run_is_given_up_when_a_program_cannot_be_started() {
    assert_eq!(
        actions_of(&["cat", "f", "|", "nosuch", "|", "head"], Some(1)),
        vec![Action::Spawn(0), Action::Spawn(1), Action::Finish]
    );
    assert_eq!(actions_of(&["nosuch", "|", "wc"], Some(0)), vec![Action::Spawn(0), Action::Finish]);
}

#[test]
fn progress_step_by_step() {
    let plan = plan_pipeline(&tokens_of(&["ls", "|", "echo", "x", "|", "wc"]));
    let zero = Progress::Starting { next: 0, processes: Processes::Zero };
    let one = Progress::Starting { next: 1, processes: Processes::One };
    let two = Progress::Starting { next: 2, processes: Processes::One };
    let three = Progress::Starting { next: 3, processes: Processes::Several };
    assert_eq!(advance(zero, &plan, false), one);
    assert_eq!(advance(one, &plan, false), two);
    assert_eq!(advance(one, &plan, true), two);
    assert_eq!(advance(two, &plan, false), three);
    assert_eq!(advance(two, &plan, true), Progress::Finished);
    assert_eq!(advance(three, &plan, false), Progress::Waiting { processes: Processes::Several });
    assert_eq!(
        advance(Progress::Waiting { processes: Processes::Several }, &plan, false),
        Progress::Ending
    );
    assert_eq!(
        advance(Progress::Waiting { processes: Processes::One }, &plan, false),
        Progress::Finished
    );
    assert_eq!(advance(Progress::Ending, &plan, false), Progress::Finished);
    assert_eq!(advance(Progress::Finished, &plan, false), Progress::Finished);
    assert_eq!(action(Progress::Ending, &plan), Action::Finish);
    assert_eq!(action(Progress::Finished, &plan), Action::Finish);
}
