//! The builtin commands: which names they have and what each one prints,
//! complains about and asks of the program around the shell.

use vstd::prelude::*;
use crate::history::{count_of, listing_text, parse_count, HistoryBuffer};
use crate::text::{chars_of, join, join_words, spells};

verus! {

/// The commands that the shell runs itself.
#[derive(Clone, Copy, Debug, PartialEq, Eq, Structural)]
pub enum BuiltinKind {
    Exit,
    Echo,
    Type,
    Pwd,
    Cd,
    History,
}

/// Whether a program name is run inside the shell or looked up on the search
/// path.
#[derive(Clone, Copy, Debug, PartialEq, Eq, Structural)]
pub enum CommandType {
    Builtin,
    External,
}

/// The name under which a builtin is called.
pub open spec fn builtin_name(kind: BuiltinKind) -> Seq<char> {
    match kind {
        BuiltinKind::Exit => "exit"@,
        BuiltinKind::Echo => "echo"@,
        BuiltinKind::Type => "type"@,
        BuiltinKind::Pwd => "pwd"@,
        BuiltinKind::Cd => "cd"@,
        BuiltinKind::History => "history"@,
    }
}

/// The builtin that `name` calls, if it calls one.
pub open spec fn builtin_of(name: Seq<char>) -> Option<BuiltinKind> {
    if name == "exit"@ {
        Some(BuiltinKind::Exit)
    } else if name == "echo"@ {
        Some(BuiltinKind::Echo)
    } else if name == "type"@ {
        Some(BuiltinKind::Type)
    } else if name == "pwd"@ {
        Some(BuiltinKind::Pwd)
    } else if name == "cd"@ {
        Some(BuiltinKind::Cd)
    } else if name == "history"@ {
        Some(BuiltinKind::History)
    } else {
        None
    }
}

/// Whether `name` calls a builtin.
pub open spec fn is_builtin(name: Seq<char>) -> bool {
    builtin_of(name) is Some
}

/// The names of all builtins, in the order of `BuiltinKind`.
pub open spec fn registry() -> Seq<Seq<char>> {
    seq!["exit"@, "echo"@, "type"@, "pwd"@, "cd"@, "history"@]
}

/// Builtin where `name` calls one, external otherwise.
pub open spec fn command_type_of(name: Seq<char>) -> CommandType {
    if is_builtin(name) {
        CommandType::Builtin
    } else {
        CommandType::External
    }
}

/// What a command leaves for the program around the shell to do.
#[derive(Clone, Debug, PartialEq, Eq)]
pub enum Effect {
    /// Nothing: go on with the next line.
    Continue,
    /// Leave the read loop.
    Exit,
    /// Make the directory the working directory, and report a failure with
    /// `cd_failure`.
    ChangeDir(String),
    /// Read the file and `load` its text into the history buffer.
    LoadHistory(String),
    /// Replace the file's content by the buffer's `file_text`, then
    /// `mark_saved`.
    WriteHistory(String),
    /// Add the buffer's `unsaved_text` to the end of the file, then
    /// `mark_saved`.
    AppendHistory(String),
}

/// An `Effect` with its path as a sequence of characters.
pub enum EffectView {
    Continue,
    Exit,
    ChangeDir(Seq<char>),
    LoadHistory(Seq<char>),
    WriteHistory(Seq<char>),
    AppendHistory(Seq<char>),
}

impl View for Effect {
    type V = EffectView;

    open spec fn view(&self) -> EffectView {
        match self {
            Effect::Continue => EffectView::Continue,
            Effect::Exit => EffectView::Exit,
            Effect::ChangeDir(path) => EffectView::ChangeDir(path@),
            Effect::LoadHistory(path) => EffectView::LoadHistory(path@),
            Effect::WriteHistory(path) => EffectView::WriteHistory(path@),
            Effect::AppendHistory(path) => EffectView::AppendHistory(path@),
        }
    }
}

/// What running a builtin gives: the text for standard output, the text for
/// standard error, and what is left to do.
#[derive(Clone, Debug, PartialEq, Eq)]
pub struct Outcome {
    pub stdout: String,
    pub stderr: String,
    pub effect: Effect,
}

/// An `Outcome` with its texts as sequences of characters.
pub struct OutcomeView {
    pub stdout: Seq<char>,
    pub stderr: Seq<char>,
    pub effect: EffectView,
}

impl View for Outcome {
    type V = OutcomeView;

    open spec fn view(&self) -> OutcomeView {
        OutcomeView { stdout: self.stdout@, stderr: self.stderr@, effect: self.effect@ }
    }
}

/// What the builtins need to know of the world outside the shell.
#[derive(Debug)]
pub struct Facts {
    /// The working directory, or the system's message on why it is unknown.
    pub cwd: Result<String, String>,
    /// The value of `HOME`, if it is set.
    pub home: Option<String>,
    /// The executable that the search path gives for the first argument, if
    /// any.
    pub resolved: Option<String>,
}

/// `Facts` with its texts as sequences of characters.
pub struct FactsView {
    pub cwd: Result<Seq<char>, Seq<char>>,
    pub home: Option<Seq<char>>,
    pub resolved: Option<Seq<char>>,
}

impl View for Facts {
    type V = FactsView;

    open spec fn view(&self) -> FactsView {
        FactsView {
            cwd: match self.cwd {
                Ok(dir) => Ok(dir@),
                Err(message) => Err(message@),
            },
            home: match self.home {
                Some(home) => Some(home@),
                None => None,
            },
            resolved: match self.resolved {
                Some(path) => Some(path@),
                None => None,
            },
        }
    }
}

/// An outcome that only prints `text`.
pub open spec fn says(text: Seq<char>) -> OutcomeView {
    OutcomeView { stdout: text, stderr: Seq::empty(), effect: EffectView::Continue }
}

/// An outcome that only complains with `text`.
pub open spec fn complains(text: Seq<char>) -> OutcomeView {
    OutcomeView { stdout: Seq::empty(), stderr: text, effect: EffectView::Continue }
}

/// An outcome that prints nothing and leaves `effect` to do.
pub open spec fn asks(effect: EffectView) -> OutcomeView {
    OutcomeView { stdout: Seq::empty(), stderr: Seq::empty(), effect }
}

/// What `echo` prints: its arguments with single spaces between them, and a
/// newline.
pub open spec fn echo_text(args: Seq<Seq<char>>) -> Seq<char> {
    join(args, " "@) + "\n"@
}

/// What `type` prints for `name`, given what the search path holds for it.
/// A builtin is reported as one whatever the search path holds.
pub open spec fn type_text(name: Seq<char>, resolved: Option<Seq<char>>) -> Seq<char> {
    if is_builtin(name) {
        name + " is a shell builtin\n"@
    } else {
        match resolved {
            Some(path) => name + " is "@ + path + "\n"@,
            None => name + ": not found\n"@,
        }
    }
}

/// The complaint after the system refused to change to `target`.
pub open spec fn cd_failure_text(target: Seq<char>) -> Seq<char> {
    "cd: "@ + target + ": No such file or directory\n"@
}

/// The message for a program that is neither a builtin nor on the search
/// path.
pub open spec fn not_found_text(name: Seq<char>) -> Seq<char> {
    name + ": command not found\n"@
}

/// `exit` prints nothing and ends the loop, whatever its arguments.
pub open spec fn exit_outcome() -> OutcomeView {
    asks(EffectView::Exit)
}

/// `echo` prints its arguments.
pub open spec fn echo_outcome(args: Seq<Seq<char>>) -> OutcomeView {
    says(echo_text(args))
}

/// `type` needs one argument and says what it names.
pub open spec fn type_outcome(args: Seq<Seq<char>>, resolved: Option<Seq<char>>) -> OutcomeView {
    if args.len() == 0 {
        complains("type: missing argument\n"@)
    } else {
        says(type_text(args[0], resolved))
    }
}

/// `pwd` prints the working directory. Where the system cannot tell it, the
/// message is printed and the loop ends.
pub open spec fn pwd_outcome(cwd: Result<Seq<char>, Seq<char>>) -> OutcomeView {
    match cwd {
        Ok(dir) => says(dir + "\n"@),
        Err(message) => OutcomeView {
            stdout: "Error: "@ + message + "\n"@,
            stderr: Seq::empty(),
            effect: EffectView::Exit,
        },
    }
}

/// `cd` asks for a change to its first argument, with `~` standing for the
/// home directory.
pub open spec fn cd_outcome(args: Seq<Seq<char>>, home: Option<Seq<char>>) -> OutcomeView {
    if args.len() == 0 {
        complains("cd: missing argument\n"@)
    } else if args[0] == "~"@ {
        match home {
            Some(dir) => asks(EffectView::ChangeDir(dir)),
            None => complains("cd: HOME not set\n"@),
        }
    } else {
        asks(EffectView::ChangeDir(args[0]))
    }
}

/// `history` with a flag and a file asks for the file to be read, written or
/// appended to; with one argument it lists that many of the last entries;
/// alone it lists them all.
pub open spec fn history_outcome(args: Seq<Seq<char>>, entries: Seq<Seq<char>>) -> OutcomeView {
    if args.len() >= 2 {
        if args[0] == "-r"@ {
            asks(EffectView::LoadHistory(args[1]))
        } else if args[0] == "-w"@ {
            asks(EffectView::WriteHistory(args[1]))
        } else if args[0] == "-a"@ {
            asks(EffectView::AppendHistory(args[1]))
        } else {
            complains("history: unknown option "@ + args[0] + "\n"@)
        }
    } else if args.len() == 1 {
        match count_of(args[0]) {
            Some(count) => says(listing_text(entries, Some(count))),
            None => complains("history: invalid number "@ + args[0] + "\n"@),
        }
    } else {
        says(listing_text(entries, None))
    }
}

/// What the builtin `kind` gives for `args`.
pub open spec fn builtin_outcome(
    kind: BuiltinKind,
    args: Seq<Seq<char>>,
    facts: FactsView,
    entries: Seq<Seq<char>>,
) -> OutcomeView {
    match kind {
        BuiltinKind::Exit => exit_outcome(),
        BuiltinKind::Echo => echo_outcome(args),
        BuiltinKind::Type => type_outcome(args, facts.resolved),
        BuiltinKind::Pwd => pwd_outcome(facts.cwd),
        BuiltinKind::Cd => cd_outcome(args, facts.home),
        BuiltinKind::History => history_outcome(args, entries),
    }
}

impl BuiltinKind {
    /// The name under which this builtin is called.
    pub fn name(self) -> (name: &'static str)
        ensures
            name@ == builtin_name(self),
    {
        match self {
            BuiltinKind::Exit => "exit",
            BuiltinKind::Echo => "echo",
            BuiltinKind::Type => "type",
            BuiltinKind::Pwd => "pwd",
            BuiltinKind::Cd => "cd",
            BuiltinKind::History => "history",
        }
    }
}

/// The builtin that `name` calls, if it calls one.
pub fn builtin_kind(name: &str) -> (kind: Option<BuiltinKind>)
    ensures
        kind == builtin_of(name@),
{
    let chars = chars_of(name);
    if spells(&chars, "exit") {
        Some(BuiltinKind::Exit)
    } else if spells(&chars, "echo") {
        Some(BuiltinKind::Echo)
    } else if spells(&chars, "type") {
        Some(BuiltinKind::Type)
    } else if spells(&chars, "pwd") {
        Some(BuiltinKind::Pwd)
    } else if spells(&chars, "cd") {
        Some(BuiltinKind::Cd)
    } else if spells(&chars, "history") {
        Some(BuiltinKind::History)
    } else {
        None
    }
}

/// Tells a builtin's name from the name of an external program.
pub fn classify_command(cmd: &str) -> (kind: CommandType)
    ensures
        kind == command_type_of(cmd@),
{
    match builtin_kind(cmd) {
        Some(_) => CommandType::Builtin,
        None => CommandType::External,
    }
}

/// The names of all builtins.
pub fn builtin_names() -> (names: Vec<String>)
    ensures
        names.deep_view() == registry(),
{
    let mut names: Vec<String> = Vec::new();
    names.push("exit".to_owned());
    names.push("echo".to_owned());
    names.push("type".to_owned());
    names.push("pwd".to_owned());
    names.push("cd".to_owned());
    names.push("history".to_owned());
    assert(names.deep_view() =~= registry());
    names
}

fn say(text: String) -> (outcome: Outcome)
    ensures
        outcome@ == says(text@),
{
    Outcome { stdout: text, stderr: String::new(), effect: Effect::Continue }
}

fn complain(text: String) -> (outcome: Outcome)
    ensures
        outcome@ == complains(text@),
{
    Outcome { stdout: String::new(), stderr: text, effect: Effect::Continue }
}

fn ask(effect: Effect) -> (outcome: Outcome)
    ensures
        outcome@ == asks(effect@),
{
    Outcome { stdout: String::new(), stderr: String::new(), effect }
}

/// What `echo` prints for `args`.
pub fn echo_output(args: &Vec<String>) -> (text: String)
    ensures
        text@ == echo_text(args.deep_view()),
{
    let mut text = join_words(args, " ");
    text.append("\n");
    text
}

/// What `type` prints for `name`, where `resolved` is what the search path
/// holds for it.
pub fn type_output(name: &str, resolved: &Option<String>) -> (text: String)
    ensures
        text@ == type_text(
            name@,
            match resolved {
                Some(path) => Some(path@),
                None => None,
            },
        ),
{
    let mut text = name.to_owned();
    if builtin_kind(name).is_some() {
        text.append(" is a shell builtin\n");
    } else {
        match resolved {
            Some(path) => {
                text.append(" is ");
                text.append(path.as_str());
                text.append("\n");
            },
            None => {
                text.append(": not found\n");
            },
        }
    }
    text
}

/// The complaint after the system refused to change to `target`.
pub fn cd_failure(target: &str) -> (text: String)
    ensures
        text@ == cd_failure_text(target@),
{
    let mut text = "cd: ".to_owned();
    text.append(target);
    text.append(": No such file or directory\n");
    text
}

/// The message for a program that is neither a builtin nor on the search
/// path.
pub fn command_not_found(name: &str) -> (text: String)
    ensures
        text@ == not_found_text(name@),
{
    let mut text = name.to_owned();
    text.append(": command not found\n");
    text
}

fn run_pwd(cwd: &Result<String, String>) -> (outcome: Outcome)
    ensures
        outcome@ == pwd_outcome(
            match cwd {
                Ok(dir) => Ok(dir@),
                Err(message) => Err(message@),
            },
        ),
{
    match cwd {
        Ok(dir) => {
            let mut text = dir.clone();
            text.append("\n");
            say(text)
        },
        Err(message) => {
            let mut text = "Error: ".to_owned();
            text.append(message.as_str());
            text.append("\n");
            Outcome { stdout: text, stderr: String::new(), effect: Effect::Exit }
        },
    }
}

fn run_cd(args: &Vec<String>, home: &Option<String>) -> (outcome: Outcome)
    ensures
        outcome@ == cd_outcome(
            args.deep_view(),
            match home {
                Some(dir) => Some(dir@),
                None => None,
            },
        ),
{
    if args.len() == 0 {
        return complain("cd: missing argument\n".to_owned());
    }
    assert(args.deep_view()[0] == args[0]@);
    let first = chars_of(args[0].as_str());
    if spells(&first, "~") {
        match home {
            Some(dir) => ask(Effect::ChangeDir(dir.clone())),
            None => complain("cd: HOME not set\n".to_owned()),
        }
    } else {
        ask(Effect::ChangeDir(args[0].clone()))
    }
}

fn run_history(args: &Vec<String>, history: &HistoryBuffer) -> (outcome: Outcome)
    ensures
        outcome@ == history_outcome(args.deep_view(), history@),
{
    if args.len() >= 2 {
        assert(args.deep_view()[0] == args[0]@);
        assert(args.deep_view()[1] == args[1]@);
        let flag = chars_of(args[0].as_str());
        if spells(&flag, "-r") {
            ask(Effect::LoadHistory(args[1].clone()))
        } else if spells(&flag, "-w") {
            ask(Effect::WriteHistory(args[1].clone()))
        } else if spells(&flag, "-a") {
            ask(Effect::AppendHistory(args[1].clone()))
        } else {
            let mut text = "history: unknown option ".to_owned();
            text.append(args[0].as_str());
            text.append("\n");
            complain(text)
        }
    } else if args.len() == 1 {
        assert(args.deep_view()[0] == args[0]@);
        match parse_count(args[0].as_str()) {
            Some(count) => say(history.listing(Some(count))),
            None => {
                let mut text = "history: invalid number ".to_owned();
                text.append(args[0].as_str());
                text.append("\n");
                complain(text)
            },
        }
    } else {
        say(history.listing(None))
    }
}

/// Runs the builtin `kind` on `args`.
pub fn run_builtin(
    kind: BuiltinKind,
    args: &Vec<String>,
    facts: &Facts,
    history: &HistoryBuffer,
) -> (outcome: Outcome)
    ensures
        outcome@ == builtin_outcome(kind, args.deep_view(), facts@, history@),
{
    match kind {
        BuiltinKind::Exit => ask(Effect::Exit),
        BuiltinKind::Echo => say(echo_output(args)),
        BuiltinKind::Type => {
            if args.len() == 0 {
                complain("type: missing argument\n".to_owned())
            } else {
                assert(args.deep_view()[0] == args[0]@);
                say(type_output(args[0].as_str(), &facts.resolved))
            }
        },
        BuiltinKind::Pwd => run_pwd(&facts.cwd),
        BuiltinKind::Cd => run_cd(args, &facts.home),
        BuiltinKind::History => run_history(args, history),
    }
}

/// The complaint about a name that calls no builtin.
pub open spec fn unknown_builtin_text(cmd: Seq<char>) -> Seq<char> {
    "Unknown builtin: "@ + cmd
}

/// Runs the builtin that `cmd` calls on `args`, and fails where `cmd` calls
/// none.
pub fn execute_builtin(
    cmd: &str,
    args: &Vec<String>,
    facts: &Facts,
    history: &HistoryBuffer,
) -> (result: Result<Outcome, String>)
    ensures
        match result {
            Ok(outcome) => builtin_of(cmd@) matches Some(kind) && outcome@ == builtin_outcome(
                kind,
                args.deep_view(),
                facts@,
                history@,
            ),
            Err(message) => builtin_of(cmd@) is None && message@ == unknown_builtin_text(cmd@),
        },
{
    match builtin_kind(cmd) {
        Some(kind) => Ok(run_builtin(kind, args, facts, history)),
        None => {
            let mut message = "Unknown builtin: ".to_owned();
            message.append(cmd);
            Err(message)
        },
    }
}

/// Each builtin is found again under its own name, so no two share one.
pub proof fn lemma_builtin_of_name(kind: BuiltinKind)
    ensures
        builtin_of(builtin_name(kind)) == Some(kind),
{
    reveal_strlit("exit");
    reveal_strlit("echo");
    reveal_strlit("type");
    reveal_strlit("pwd");
    reveal_strlit("cd");
    reveal_strlit("history");
    match kind {
        BuiltinKind::Exit => {},
        BuiltinKind::Echo => {
            assert("echo"@[1] != "exit"@[1]);
        },
        BuiltinKind::Type => {
            assert("type"@[0] != "exit"@[0]);
            assert("type"@[0] != "echo"@[0]);
        },
        BuiltinKind::Pwd => {
            assert("pwd"@.len() == 3);
        },
        BuiltinKind::Cd => {
            assert("cd"@.len() == 2);
        },
        BuiltinKind::History => {
            assert("history"@.len() == 7);
        },
    }
}

/// The registry holds exactly the names that call a builtin.
pub proof fn lemma_registry_is_exact(name: Seq<char>)
    ensures
        is_builtin(name) <==> registry().contains(name),
{
    if is_builtin(name) {
        let kind = builtin_of(name).unwrap();
        let at: int = match kind {
            BuiltinKind::Exit => 0,
            BuiltinKind::Echo => 1,
            BuiltinKind::Type => 2,
            BuiltinKind::Pwd => 3,
            BuiltinKind::Cd => 4,
            BuiltinKind::History => 5,
        };
        assert(registry()[at] == name);
    }
    if registry().contains(name) {
        let at = choose|at: int| 0 <= at < registry().len() && registry()[at] == name;
        assert(registry()[at] == name);
    }
}

/// `type` reports every builtin as a shell builtin, whatever the search path
/// holds under its name.
pub proof fn lemma_type_knows_every_builtin(
    kind: BuiltinKind,
    facts: FactsView,
    entries: Seq<Seq<char>>,
)
    ensures
        type_text(builtin_name(kind), facts.resolved) == builtin_name(kind)
            + " is a shell builtin\n"@,
        builtin_outcome(BuiltinKind::Type, seq![builtin_name(kind)], facts, entries) == says(
            builtin_name(kind) + " is a shell builtin\n"@,
        ),
{
    lemma_builtin_of_name(kind);
}

} // verus!
