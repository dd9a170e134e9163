//! The read loop's decisions: what one input line asks for.

use vstd::prelude::*;
use crate::builtins::{
    builtin_kind, builtin_of, command_not_found, command_type_of, is_builtin, not_found_text,
    BuiltinKind,
};
use crate::completion::{first_occurrences, pairs_of, AutoCompleter, Executable};
use crate::history::{accept, HistoryBuffer};
use crate::lexer::{tokenize, tokens_of};
use crate::pipeline::{
    bar, direct_step, has_pipe, kinds_of, lemma_one_command_is_one_stage, plan_pipeline, plans,
    stages_of, Stage,
};
use crate::redirect::{no_operator_before, parse_redirection, redirects, Redirected, Redirection};
use crate::resolver::{candidates_of, lemma_no_path_no_executable, resolution};
use crate::text::{chars_of, string_of};

verus! {

/// One command with what it is called with.
#[derive(Clone, Debug, PartialEq, Eq)]
pub struct Invocation {
    /// The first word of the line.
    pub program: String,
    /// The builtin that the program name calls; `None` for a program to be
    /// looked up on the search path.
    pub builtin: Option<BuiltinKind>,
    /// The arguments in front of the first redirection operator.
    pub args: Vec<String>,
    /// Where the output goes.
    pub redirection: Redirection,
}

/// What an input line asks for.
#[derive(Clone, Debug, PartialEq, Eq)]
pub enum Request {
    /// The line holds no word: nothing is run.
    Skip,
    /// The line holds a bar: its stages are run as a pipeline.
    Pipeline(Vec<Stage>),
    /// The line is one command.
    Command(Invocation),
}

/// `line` without the newline at its end, if it has one.
pub open spec fn without_newline(line: Seq<char>) -> Seq<char> {
    if line.len() > 0 && line.last() == '\n' {
        line.drop_last()
    } else {
        line
    }
}

/// Whether `invocation` is the single command that `tokens` write.
pub open spec fn invokes(invocation: Invocation, tokens: Seq<Seq<char>>) -> bool {
    &&& invocation.program@ == tokens[0]
    &&& invocation.builtin == builtin_of(tokens[0])
    &&& redirects(
        Redirected { args: invocation.args, redirection: invocation.redirection },
        tokens.skip(1),
    )
}

/// Whether `request` is what the words `tokens` ask for. No word asks for
/// nothing; a bar among the words makes them a pipeline, whatever else they
/// hold; anything else is one command, with its redirection taken out of its
/// arguments.
pub open spec fn answers(request: Request, tokens: Seq<Seq<char>>) -> bool {
    match request {
        Request::Skip => tokens.len() == 0,
        Request::Pipeline(plan) => tokens.len() > 0 && tokens.contains(bar()) && plans(
            plan@,
            tokens,
        ),
        Request::Command(invocation) => tokens.len() > 0 && !tokens.contains(bar()) && invokes(
            invocation,
            tokens,
        ),
    }
}

/// The complaint about a program that is no builtin, given what the search
/// path holds for it: none where the search found it.
pub open spec fn complaint_of(name: Seq<char>, resolved: Option<Seq<char>>) -> Option<Seq<char>> {
    match resolved {
        Some(_) => None,
        None => Some(not_found_text(name)),
    }
}

/// The name that has to be looked up on the search path before a command
/// can run: the program itself where it is no builtin, and for `type` its
/// first argument, unless that names a builtin.
pub open spec fn lookup_of(
    builtin: Option<BuiltinKind>,
    program: Seq<char>,
    args: Seq<Seq<char>>,
) -> Option<Seq<char>> {
    match builtin {
        None => Some(program),
        Some(BuiltinKind::Type) => if args.len() > 0 && !is_builtin(args[0]) {
            Some(args[0])
        } else {
            None
        },
        Some(_) => None,
    }
}

/// The name that has to be looked up on the search path before the command
/// can run, if there is one.
pub fn name_to_resolve(
    builtin: Option<BuiltinKind>,
    program: &str,
    args: &Vec<String>,
) -> (name: Option<String>)
    ensures
        match name {
            Some(name) => lookup_of(builtin, program@, args.deep_view()) == Some(name@),
            None => lookup_of(builtin, program@, args.deep_view()) is None,
        },
{
    match builtin {
        None => Some(program.to_owned()),
        Some(BuiltinKind::Type) => {
            if args.len() > 0 {
                assert(args.deep_view()[0] == args[0]@);
                if builtin_kind(args[0].as_str()).is_none() {
                    return Some(args[0].clone());
                }
            }
            None
        },
        Some(_) => None,
    }
}

/// `line` without the newline at its end.
pub fn strip_newline(line: &str) -> (stripped: String)
    ensures
        stripped@ == without_newline(line@),
{
    let chars = chars_of(line);
    let n = chars.len();
    if n > 0 && chars[n - 1] == '\n' {
        string_of(&chars, 0, n - 1)
    } else {
        assert(chars@.subrange(0, n as int) =~= chars@);
        string_of(&chars, 0, n)
    }
}

/// What the words of a line ask for.
pub fn dispatch(tokens: Vec<String>) -> (request: Request)
    ensures
        answers(request, tokens.deep_view()),
{
    if tokens.len() == 0 {
        return Request::Skip;
    }
    if has_pipe(&tokens) {
        return Request::Pipeline(plan_pipeline(&tokens));
    }
    let ghost all = tokens.deep_view();
    let mut args = tokens;
    let program = args.remove(0);
    assert(program@ == all[0]);
    assert(args.deep_view() =~= all.skip(1));
    let builtin = builtin_kind(program.as_str());
    let parsed = parse_redirection(&args);
    Request::Command(
        Invocation { program, builtin, args: parsed.args, redirection: parsed.redirection },
    )
}

/// The complaint to print instead of starting `program`, which is no
/// builtin: `None` where the search found it at `resolved`.
pub fn complaint(program: &str, resolved: &Option<String>) -> (message: Option<String>)
    ensures
        match message {
            Some(text) => complaint_of(
                program@,
                match resolved {
                    Some(path) => Some(path@),
                    None => None,
                },
            ) == Some(text@),
            None => resolved is Some,
        },
{
    match resolved {
        Some(_) => None,
        None => Some(command_not_found(program)),
    }
}

/// The state that lasts from one input line to the next: the history, and
/// the names that completion offers.
pub struct Shell {
    pub history: HistoryBuffer,
    pub completer: AutoCompleter,
}

impl Shell {
    /// A shell with an empty history, and with completion over the builtins
    /// and the files `found` on the search path.
    pub fn new(found: &Vec<Executable>) -> (shell: Self)
        ensures
            shell.history@.len() == 0,
            shell.history.saved() == 0,
            shell.completer.builtins() == crate::builtins::registry(),
            shell.completer.executables() == first_occurrences(pairs_of(found@)),
    {
        Shell { history: HistoryBuffer::new(), completer: AutoCompleter::new(found) }
    }

    /// Takes one input line: the line goes into the history as it is, unless
    /// it is empty, and its words, read without the newline at its end, say
    /// what is to be run.
    pub fn accept(&mut self, line: &str) -> (request: Request)
        ensures
            final(self).history@ == accept(old(self).history@, line@),
            final(self).history.saved() == old(self).history.saved(),
            final(self).completer == old(self).completer,
            answers(request, tokens_of(without_newline(line@))),
    {
        self.history.record(line);
        let stripped = strip_newline(line);
        dispatch(tokenize(stripped.as_str()))
    }
}

/// With the search path unset or empty, a name that is no builtin is not
/// found, whatever is on disk, and the complaint says so.
pub proof fn lemma_no_path_means_not_found(
    path: Option<Seq<char>>,
    name: Seq<char>,
    probes: Seq<Option<u32>>,
)
    requires
        path matches Some(value) ==> value.len() == 0,
        !is_builtin(name),
    ensures
        resolution(candidates_of(path, name), probes) is None,
        complaint_of(name, resolution(candidates_of(path, name), probes)) == Some(
            not_found_text(name),
        ),
{
    lemma_no_path_no_executable(path, name, probes);
}

/// A pipeline of one stage is the command itself: for words without a bar
/// and without a redirection operator, the plan of the pipeline holds one
/// stage, which has the program, the kind and the arguments of the single
/// command that the same words write, and is connected to the terminal as a
/// command on its own is. A bar behind the words changes nothing.
pub proof fn lemma_single_stage_pipeline_is_the_command(
    tokens: Seq<Seq<char>>,
    plan: Seq<Stage>,
    piped: Seq<Stage>,
    invocation: Invocation,
)
    requires
        tokens.len() > 0,
        !tokens.contains(bar()),
        no_operator_before(tokens.skip(1), tokens.len() - 1),
        plans(plan, tokens),
        plans(piped, tokens.push(bar())),
        invokes(invocation, tokens),
    ensures
        plan.len() == 1,
        plan[0].program@ == invocation.program@,
        plan[0].args.deep_view() == invocation.args.deep_view(),
        plan[0].step == direct_step(command_type_of(invocation.program@)),
        invocation.builtin == builtin_of(plan[0].program@),
        invocation.redirection is Absent,
        piped.len() == 1,
        piped[0].program@ == plan[0].program@,
        piped[0].args.deep_view() == plan[0].args.deep_view(),
        piped[0].step == plan[0].step,
{
    lemma_one_command_is_one_stage(tokens);
    assert(stages_of(tokens)[0] == tokens);
    assert(stages_of(tokens.push(bar()))[0] == tokens);
    assert(kinds_of(stages_of(tokens))[0] == command_type_of(tokens[0]));
    assert(kinds_of(stages_of(tokens.push(bar())))[0] == command_type_of(tokens[0]));
    assert(plan[0].program@ == tokens[0]);
    assert(piped[0].program@ == tokens[0]);
}

} // verus!
