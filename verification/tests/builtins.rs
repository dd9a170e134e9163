use shell_core::builtins::{
    builtin_kind, builtin_names, cd_failure, classify_command, command_not_found, echo_output,
    execute_builtin, run_builtin, type_output, BuiltinKind, CommandType, Effect, Facts, Outcome,
};
use shell_core::history::HistoryBuffer;

fn strings(words: &[&str]) -> Vec<String> {
    words.iter().map(|w| w.to_string()).collect()
}

fn facts() -> Facts {
    Facts { cwd: Ok("/home/user".to_string()), home: Some("/home/user".to_string()), resolved: None }
}

fn says(text: &str) -> Outcome {
    Outcome { stdout: text.to_string(), stderr: String::new(), effect: Effect::Continue }
}

fn complains(text: &str) -> Outcome {
    Outcome { stdout: String::new(), stderr: text.to_string(), effect: Effect::Continue }
}

fn asks(effect: Effect) -> Outcome {
    Outcome { stdout: String::new(), stderr: String::new(), effect }
}

fn history_of(lines: &[&str]) -> HistoryBuffer {
    let mut history = HistoryBuffer::new();
    for line in lines {
        history.record(line);
    }
    history
}

#[test]
fn the_six_builtins_are_classified_as_builtins() {
    for name in ["exit", "echo", "type", "pwd", "cd", "history"] {
        assert_eq!(classify_command(name), CommandType::Builtin);
    }
}

#[test]
fn other_names_are_external() {
    for name in ["ls", "", "Echo", "echo ", "ech", "echoo", "wc", "|", "history2"] {
        assert_eq!(classify_command(name), CommandType::External);
    }
}

#[test]
fn builtin_names_and_kinds_match() {
    let kinds = [
        BuiltinKind::Exit,
        BuiltinKind::Echo,
        BuiltinKind::Type,
        BuiltinKind::Pwd,
        BuiltinKind::Cd,
        BuiltinKind::History,
    ];
    assert_eq!(builtin_names(), vec!["exit", "echo", "type", "pwd", "cd", "history"]);
    for (kind, name) in kinds.iter().zip(builtin_names()) {
        assert_eq!(kind.name(), name);
        assert_eq!(builtin_kind(&name), Some(*kind));
    }
    assert_eq!(builtin_kind("ls"), None);
}

#[test]
fn type_reports_every_builtin() {
    for name in builtin_names() {
        let expected = format!("{} is a shell builtin\n", name);
        assert_eq!(type_output(&name, &None), expected);
        assert_eq!(type_output(&name, &Some(format!("/bin/{}", name))), expected);
        let outcome =
            run_builtin(BuiltinKind::Type, &vec![name.clone()], &facts(), &HistoryBuffer::new());
        assert_eq!(outcome, says(&expected));
    }
}

#[test]
fn type_echo_is_a_shell_builtin() {
    let outcome =
        run_builtin(BuiltinKind::Type, &strings(&["echo"]), &facts(), &HistoryBuffer::new());
    assert_eq!(outcome, says("echo is a shell builtin\n"));
}

#[test]
fn type_of_an_unknown_name_is_not_found() {
    let outcome =
        run_builtin(BuiltinKind::Type, &strings(&["nosuch"]), &facts(), &HistoryBuffer::new());
    assert_eq!(outcome, says("nosuch: not found\n"));
}

#[test]
fn type_of_an_executable_gives_its_path() {
    let mut known = facts();
    known.resolved = Some("/usr/bin/ls".to_string());
    let outcome = run_builtin(BuiltinKind::Type, &strings(&["ls"]), &known, &HistoryBuffer::new());
    assert_eq!(outcome, says("ls is /usr/bin/ls\n"));
}

#[test]
fn type_without_argument_complains() {
    let outcome = run_builtin(BuiltinKind::Type, &Vec::new(), &facts(), &HistoryBuffer::new());
    assert_eq!(outcome, complains("type: missing argument\n"));
}

#[test]
fn type_looks_at_its_first_argument_only() {
    let outcome =
        run_builtin(BuiltinKind::Type, &strings(&["cd", "nosuch"]), &facts(), &HistoryBuffer::new());
    assert_eq!(outcome, says("cd is a shell builtin\n"));
}

#[test]
fn echo_joins_its_arguments() {
    assert_eq!(echo_output(&strings(&["a", "b", "c"])), "a b c\n");
    assert_eq!(echo_output(&strings(&["hello   world"])), "hello   world\n");
    assert_eq!(echo_output(&Vec::new()), "\n");
    let outcome = run_builtin(BuiltinKind::Echo, &strings(&["hi"]), &facts(), &HistoryBuffer::new());
    assert_eq!(outcome, says("hi\n"));
}

#[test]
fn pwd_prints_the_working_directory() {
    let outcome = run_builtin(BuiltinKind::Pwd, &Vec::new(), &facts(), &HistoryBuffer::new());
    assert_eq!(outcome, says("/home/user\n"));
}

#[test]
fn pwd_failure_prints_the_message_and_ends_the_loop() {
    let mut lost = facts();
    lost.cwd = Err("No such file or directory (os error 2)".to_string());
    let outcome = run_builtin(BuiltinKind::Pwd, &Vec::new(), &lost, &HistoryBuffer::new());
    assert_eq!(
        outcome,
        Outcome {
            stdout: "Error: No such file or directory (os error 2)\n".to_string(),
            stderr: String::new(),
            effect: Effect::Exit,
        }
    );
}

#[test]
fn cd_asks_for_its_first_argument() {
    let outcome = run_builtin(BuiltinKind::Cd, &strings(&["/tmp"]), &facts(), &HistoryBuffer::new());
    assert_eq!(outcome, asks(Effect::ChangeDir("/tmp".to_string())));
    let outcome =
        run_builtin(BuiltinKind::Cd, &strings(&["/tmp", "more"]), &facts(), &HistoryBuffer::new());
    assert_eq!(outcome, asks(Effect::ChangeDir("/tmp".to_string())));
}

#[test]
fn cd_tilde_goes_home() {
    let outcome = run_builtin(BuiltinKind::Cd, &strings(&["~"]), &facts(), &HistoryBuffer::new());
    assert_eq!(outcome, asks(Effect::ChangeDir("/home/user".to_string())));
}

#[test]
fn cd_tilde_without_home_complains() {
    let mut homeless = facts();
    homeless.home = None;
    let outcome = run_builtin(BuiltinKind::Cd, &strings(&["~"]), &homeless, &HistoryBuffer::new());
    assert_eq!(outcome, complains("cd: HOME not set\n"));
}

#[test]
fn cd_only_a_lone_tilde_stands_for_home() {
    let outcome = run_builtin(BuiltinKind::Cd, &strings(&["~/x"]), &facts(), &HistoryBuffer::new());
    assert_eq!(outcome, asks(Effect::ChangeDir("~/x".to_string())));
}

#[test]
fn cd_without_argument_complains() {
    let outcome = run_builtin(BuiltinKind::Cd, &Vec::new(), &facts(), &HistoryBuffer::new());
    assert_eq!(outcome, complains("cd: missing argument\n"));
}

#[test]
fn cd_to_a_missing_directory() {
    let outcome =
        run_builtin(BuiltinKind::Cd, &strings(&["/nonexistent"]), &facts(), &HistoryBuffer::new());
    assert_eq!(outcome, asks(Effect::ChangeDir("/nonexistent".to_string())));
    assert_eq!(cd_failure("/nonexistent"), "cd: /nonexistent: No such file or directory\n");
}

#[test]
fn exit_ends_the_loop_whatever_its_arguments() {
    let outcome = run_builtin(BuiltinKind::Exit, &Vec::new(), &facts(), &HistoryBuffer::new());
    assert_eq!(outcome, asks(Effect::Exit));
    let outcome = run_builtin(BuiltinKind::Exit, &strings(&["3", "x"]), &facts(), &HistoryBuffer::new());
    assert_eq!(outcome, asks(Effect::Exit));
}

#[test]
fn history_lists_all_entries() {
    let history = history_of(&["ls", "pwd", "echo hi"]);
    let outcome = run_builtin(BuiltinKind::History, &Vec::new(), &facts(), &history);
    assert_eq!(outcome, says("    1  ls\n    2  pwd\n    3  echo hi\n"));
}

#[test]
fn history_lists_the_last_entries_under_their_indices() {
    let history = history_of(&["ls", "pwd", "echo hi"]);
    let outcome = run_builtin(BuiltinKind::History, &strings(&["2"]), &facts(), &history);
    assert_eq!(outcome, says("    2  pwd\n    3  echo hi\n"));
    let outcome = run_builtin(BuiltinKind::History, &strings(&["7"]), &facts(), &history);
    assert_eq!(outcome, says("    1  ls\n    2  pwd\n    3  echo hi\n"));
    let outcome = run_builtin(BuiltinKind::History, &strings(&["0"]), &facts(), &history);
    assert_eq!(outcome, says(""));
}

#[test]
fn history_with_a_bad_number_complains() {
    let history = history_of(&["ls"]);
    for arg in ["abc", "-1", "1x", "", "+", "-r", "1.5", " 1"] {
        let outcome = run_builtin(BuiltinKind::History, &strings(&[arg]), &facts(), &history);
        assert_eq!(outcome, complains(&format!("history: invalid number {}\n", arg)));
    }
}

#[test]
fn history_flags_ask_for_the_file() {
    let history = history_of(&["ls"]);
    let outcome = run_builtin(BuiltinKind::History, &strings(&["-r", "h.txt"]), &facts(), &history);
    assert_eq!(outcome, asks(Effect::LoadHistory("h.txt".to_string())));
    let outcome = run_builtin(BuiltinKind::History, &strings(&["-w", "h.txt"]), &facts(), &history);
    assert_eq!(outcome, asks(Effect::WriteHistory("h.txt".to_string())));
    let outcome =
        run_builtin(BuiltinKind::History, &strings(&["-a", "h.txt", "x"]), &facts(), &history);
    assert_eq!(outcome, asks(Effect::AppendHistory("h.txt".to_string())));
}

#[test]
fn history_with_an_unknown_flag_complains() {
    let history = history_of(&["ls"]);
    let outcome = run_builtin(BuiltinKind::History, &strings(&["-x", "h.txt"]), &facts(), &history);
    assert_eq!(outcome, complains("history: unknown option -x\n"));
    let outcome = run_builtin(BuiltinKind::History, &strings(&["3", "4"]), &facts(), &history);
    assert_eq!(outcome, complains("history: unknown option 3\n"));
}

#[test]
fn execute_builtin_runs_a_builtin_by_name() {
    let result = execute_builtin("echo", &strings(&["a", "b"]), &facts(), &HistoryBuffer::new());
    assert_eq!(result, Ok(says("a b\n")));
    let result = execute_builtin("pwd", &Vec::new(), &facts(), &HistoryBuffer::new());
    assert_eq!(result, Ok(says("/home/user\n")));
    let result = execute_builtin("type", &Vec::new(), &facts(), &HistoryBuffer::new());
    assert_eq!(result, Ok(complains("type: missing argument\n")));
}

#[test]
fn execute_builtin_rejects_other_names() {
    let result = execute_builtin("ls", &Vec::new(), &facts(), &HistoryBuffer::new());
    assert_eq!(result, Err("Unknown builtin: ls".to_string()));
    let result = execute_builtin("", &Vec::new(), &facts(), &HistoryBuffer::new());
    assert_eq!(result, Err("Unknown builtin: ".to_string()));
}

#[test]
fn command_not_found_names_the_command() {
    assert_eq!(command_not_found("frobnicate"), "frobnicate: command not found\n");
}

#[test]
fn pwd_after_cd_ends_in_the_same_component() {
    let outcome = run_builtin(BuiltinKind::Cd, &strings(&["../srv/www"]), &facts(), &HistoryBuffer::new());
    let target = match outcome.effect {
        Effect::ChangeDir(target) => target,
        other => panic!("{:?}", other),
    };
    assert_eq!(target, "../srv/www");
    let mut moved = facts();
    moved.cwd = Ok("/srv/www".to_string());
    let printed = run_builtin(BuiltinKind::Pwd, &Vec::new(), &moved, &HistoryBuffer::new()).stdout;
    assert_eq!(printed, "/srv/www\n");
    assert_eq!(printed.trim_end().rsplit('/').next(), target.rsplit('/').next());
}
