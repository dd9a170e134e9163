//! Redirection: finding the operator among a command's arguments, and
//! sending the command's output where the operator says.

use vstd::prelude::*;
use crate::text::{chars_of, spells};

verus! {

/// The output stream that a redirection diverts.
#[derive(Clone, Copy, Debug, PartialEq, Eq, Structural)]
pub enum Stream {
    Stdout,
    Stderr,
}

/// How the target file is opened: emptied first, or added to.
#[derive(Clone, Copy, Debug, PartialEq, Eq, Structural)]
pub enum WriteMode {
    Truncate,
    Append,
}

/// The stream and mode that `token` stands for, if it is one of the six
/// operators. Only a whole token counts.
pub open spec fn operator_of(token: Seq<char>) -> Option<(Stream, WriteMode)> {
    if token == ">"@ || token == "1>"@ {
        Some((Stream::Stdout, WriteMode::Truncate))
    } else if token == ">>"@ || token == "1>>"@ {
        Some((Stream::Stdout, WriteMode::Append))
    } else if token == "2>"@ {
        Some((Stream::Stderr, WriteMode::Truncate))
    } else if token == "2>>"@ {
        Some((Stream::Stderr, WriteMode::Append))
    } else {
        None
    }
}

/// No operator stands among the first `upto` arguments.
pub open spec fn no_operator_before(args: Seq<Seq<char>>, upto: int) -> bool {
    forall|i: int| 0 <= i < upto && i < args.len() ==> operator_of(#[trigger] args[i]) is None
}

/// `at` is the place of the first operator among `args`.
pub open spec fn is_first_operator(args: Seq<Seq<char>>, at: int) -> bool {
    &&& 0 <= at < args.len()
    &&& operator_of(args[at]) is Some
    &&& no_operator_before(args, at)
}

/// Where one stream of a command goes instead of the terminal.
#[derive(Clone, Debug, PartialEq, Eq)]
pub struct RedirectionSpec {
    pub stream: Stream,
    pub mode: WriteMode,
    pub target: String,
}

/// What the arguments say about redirection.
#[derive(Clone, Debug, PartialEq, Eq)]
pub enum Redirection {
    /// No operator: both streams go to the terminal.
    Absent,
    /// An operator followed by its target.
    To(RedirectionSpec),
    /// An operator as the last argument, with no target after it.
    MissingTarget,
}

/// A command's arguments with the redirection taken out.
#[derive(Clone, Debug, PartialEq, Eq)]
pub struct Redirected {
    /// The arguments that the command itself gets.
    pub args: Vec<String>,
    pub redirection: Redirection,
}

/// The stream and mode that `token` stands for, if it is an operator.
pub fn parse_operator(token: &str) -> (op: Option<(Stream, WriteMode)>)
    ensures
        op == operator_of(token@),
{
    let chars = chars_of(token);
    if spells(&chars, ">") || spells(&chars, "1>") {
        Some((Stream::Stdout, WriteMode::Truncate))
    } else if spells(&chars, ">>") || spells(&chars, "1>>") {
        Some((Stream::Stdout, WriteMode::Append))
    } else if spells(&chars, "2>") {
        Some((Stream::Stderr, WriteMode::Truncate))
    } else if spells(&chars, "2>>") {
        Some((Stream::Stderr, WriteMode::Append))
    } else {
        None
    }
}

/// The place of the first operator among `args`.
pub fn find_operator(args: &Vec<String>) -> (found: Option<usize>)
    ensures
        match found {
            Some(at) => is_first_operator(args.deep_view(), at as int),
            None => no_operator_before(args.deep_view(), args.len() as int),
        },
{
    let mut at: usize = 0;
    while at < args.len()
        invariant
            at <= args.len(),
            no_operator_before(args.deep_view(), at as int),
        decreases args.len() - at,
    {
        assert(args.deep_view()[at as int] == args[at as int]@);
        if parse_operator(args[at].as_str()).is_some() {
            return Some(at);
        }
        at += 1;
    }
    None
}

/// Whether `parsed` is what `args`, the words after a program name, say:
/// what stands before the first operator are the command's own arguments,
/// the word after it is the target, and later words are dropped.
pub open spec fn redirects(parsed: Redirected, args: Seq<Seq<char>>) -> bool {
    &&& no_operator_before(args, args.len() as int) ==> {
        &&& parsed.args.deep_view() == args
        &&& parsed.redirection is Absent
    }
    &&& forall|at: int| #[trigger]
        is_first_operator(args, at) ==> {
            &&& parsed.args.deep_view() == args.take(at)
            &&& at + 1 == args.len() ==> parsed.redirection is MissingTarget
            &&& at + 1 < args.len() ==> {
                &&& parsed.redirection matches Redirection::To(spec)
                &&& Some((spec.stream, spec.mode)) == operator_of(args[at])
                &&& spec.target@ == args[at + 1]
            }
        }
}

/// Splits the arguments of a command at the first operator.
pub fn parse_redirection(args: &Vec<String>) -> (parsed: Redirected)
    ensures
        redirects(parsed, args.deep_view()),
{
    let ghost all = args.deep_view();
    let found = find_operator(args);
    let end = match found {
        Some(at) => at,
        None => args.len(),
    };
    let mut own: Vec<String> = Vec::new();
    let mut i: usize = 0;
    while i < end
        invariant
            i <= end <= args.len(),
            all == args.deep_view(),
            own.deep_view() == all.take(i as int),
        decreases end - i,
    {
        let ghost before = own.deep_view();
        let word = args[i].clone();
        assert(word@ == all[i as int]);
        own.push(word);
        assert(own.deep_view() =~= before.push(word@));
        i += 1;
        assert(own.deep_view() =~= all.take(i as int));
    }
    match found {
        None => {
            assert(all.take(end as int) =~= all);
            assert forall|at: int| #[trigger] is_first_operator(all, at) implies false by {
                assert(operator_of(all[at]) is None);
            }
            Redirected { args: own, redirection: Redirection::Absent }
        },
        Some(k) => {
            assert forall|at: int| #[trigger] is_first_operator(all, at) implies at == k by {
                if at < k {
                    assert(operator_of(all[at]) is None);
                }
                if k < at {
                    assert(operator_of(all[k as int]) is None);
                }
            }
            assert(operator_of(all[k as int]) is Some);
            assert(all[k as int] == args[k as int]@);
            let redirection = if k + 1 < args.len() {
                assert(all[k + 1] == args[k + 1]@);
                match parse_operator(args[k].as_str()) {
                    Some((stream, mode)) => Redirection::To(
                        RedirectionSpec { stream, mode, target: args[k + 1].clone() },
                    ),
                    None => Redirection::Absent,
                }
            } else {
                Redirection::MissingTarget
            };
            Redirected { args: own, redirection }
        },
    }
}

/// A command's output after redirection: what goes into the file, and what
/// still goes to each stream of the terminal.
#[derive(Clone, Debug, PartialEq, Eq)]
pub struct Delivery {
    pub file: Vec<u8>,
    pub stdout: Vec<u8>,
    pub stderr: Vec<u8>,
}

/// Sends what the command wrote to `stream` into the file and lets the other
/// stream through.
pub fn deliver(stream: Stream, stdout: Vec<u8>, stderr: Vec<u8>) -> (delivery: Delivery)
    ensures
        stream == Stream::Stdout ==> {
            &&& delivery.file@ == stdout@
            &&& delivery.stdout@.len() == 0
            &&& delivery.stderr@ == stderr@
        },
        stream == Stream::Stderr ==> {
            &&& delivery.file@ == stderr@
            &&& delivery.stdout@ == stdout@
            &&& delivery.stderr@.len() == 0
        },
{
    match stream {
        Stream::Stdout => Delivery { file: stdout, stdout: Vec::new(), stderr },
        Stream::Stderr => Delivery { file: stderr, stdout, stderr: Vec::new() },
    }
}

} // verus!
