//! Finding a program on the search path: which files to look at, in which
//! order, and which of them is taken.

use vstd::prelude::*;
use crate::text::{fields, split_fields};

verus! {

/// The directories of the search path `path`, in order: the value cut at
/// every colon. An unset or empty search path has none.
pub open spec fn search_dirs(path: Option<Seq<char>>) -> Seq<Seq<char>> {
    match path {
        Some(value) if value.len() > 0 => fields(value, ':'),
        _ => Seq::empty(),
    }
}

/// The file that `name` would be in directory `dir`.
pub open spec fn candidate(dir: Seq<char>, name: Seq<char>) -> Seq<char> {
    dir + "/"@ + name
}

/// The files that `name` could be on the search path, first choice first.
pub open spec fn candidates_of(path: Option<Seq<char>>, name: Seq<char>) -> Seq<Seq<char>> {
    Seq::new(search_dirs(path).len(), |i: int| candidate(search_dirs(path)[i], name))
}

/// Whether a file of mode `mode` may be executed by its owner.
pub open spec fn owner_may_execute(mode: u32) -> bool {
    mode & 0o100 != 0
}

/// Whether a look at a file found it and found it executable. `None` stands
/// for a file that is not there or cannot be examined.
pub open spec fn is_executable(probe: Option<u32>) -> bool {
    probe matches Some(mode) && owner_may_execute(mode)
}

/// The first of `candidates[at..]` that its probe shows executable. A
/// candidate without a probe counts as not there.
pub open spec fn resolve_from(
    candidates: Seq<Seq<char>>,
    probes: Seq<Option<u32>>,
    at: int,
) -> Option<Seq<char>>
    decreases candidates.len() - at,
{
    if at < 0 || at >= candidates.len() || at >= probes.len() {
        None
    } else if is_executable(probes[at]) {
        Some(candidates[at])
    } else {
        resolve_from(candidates, probes, at + 1)
    }
}

/// The executable that the search gives: the first candidate that its probe
/// shows executable.
pub open spec fn resolution(
    candidates: Seq<Seq<char>>,
    probes: Seq<Option<u32>>,
) -> Option<Seq<char>> {
    resolve_from(candidates, probes, 0)
}

/// The directories of the search path, in order.
pub fn search_directories(path: Option<&str>) -> (dirs: Vec<String>)
    ensures
        dirs.deep_view() == search_dirs(
            match path {
                Some(value) => Some(value@),
                None => None,
            },
        ),
{
    match path {
        Some(value) => {
            if value.is_empty() {
                let dirs: Vec<String> = Vec::new();
                assert(dirs.deep_view() =~= Seq::<Seq<char>>::empty());
                dirs
            } else {
                split_fields(value, ':')
            }
        },
        None => {
            let dirs: Vec<String> = Vec::new();
            assert(dirs.deep_view() =~= Seq::<Seq<char>>::empty());
            dirs
        },
    }
}

/// The file that `name` would be in directory `dir`.
pub fn candidate_path(dir: &str, name: &str) -> (file: String)
    ensures
        file@ == candidate(dir@, name@),
{
    let mut file = dir.to_owned();
    file.append("/");
    file.append(name);
    file
}

/// The files to look at for `name`, first choice first.
pub fn candidates(path: Option<&str>, name: &str) -> (files: Vec<String>)
    ensures
        files.deep_view() == candidates_of(
            match path {
                Some(value) => Some(value@),
                None => None,
            },
            name@,
        ),
{
    let dirs = search_directories(path);
    let ghost wanted = candidates_of(
        match path {
            Some(value) => Some(value@),
            None => None,
        },
        name@,
    );
    let mut files: Vec<String> = Vec::new();
    let mut at: usize = 0;
    while at < dirs.len()
        invariant
            at <= dirs.len(),
            wanted.len() == dirs.len(),
            forall|i: int| 0 <= i < dirs.len() ==> wanted[i] == candidate(dirs[i]@, name@),
            files.deep_view() == wanted.take(at as int),
        decreases dirs.len() - at,
    {
        let ghost before = files.deep_view();
        let file = candidate_path(dirs[at].as_str(), name);
        files.push(file);
        assert(files.deep_view() =~= before.push(wanted[at as int]));
        at += 1;
        assert(files.deep_view() =~= wanted.take(at as int));
    }
    assert(wanted.take(at as int) =~= wanted);
    files
}

/// Whether a file of mode `mode` may be executed by its owner.
pub fn is_owner_executable(mode: u32) -> (yes: bool)
    ensures
        yes == owner_may_execute(mode),
{
    mode & 0o100 != 0
}

/// Picks the executable among `candidates`, where `probes[i]` is the mode of
/// `candidates[i]`, or `None` if that file is not there.
pub fn find_executable(
    candidates: &Vec<String>,
    probes: &Vec<Option<u32>>,
) -> (found: Option<String>)
    ensures
        match found {
            Some(file) => resolution(candidates.deep_view(), probes@) == Some(file@),
            None => resolution(candidates.deep_view(), probes@) is None,
        },
{
    let mut at: usize = 0;
    while at < candidates.len() && at < probes.len()
        invariant
            at <= candidates.len(),
            at <= probes.len(),
            resolution(candidates.deep_view(), probes@) == resolve_from(
                candidates.deep_view(),
                probes@,
                at as int,
            ),
        decreases candidates.len() - at,
    {
        let executable = match probes[at] {
            Some(mode) => is_owner_executable(mode),
            None => false,
        };
        if executable {
            assert(candidates.deep_view()[at as int] == candidates[at as int]@);
            return Some(candidates[at].clone());
        }
        at += 1;
    }
    None
}

/// What the search gives was looked at and found executable, and every
/// candidate before it was not.
pub proof fn lemma_resolution_is_first_executable(
    candidates: Seq<Seq<char>>,
    probes: Seq<Option<u32>>,
)
    ensures
        match resolution(candidates, probes) {
            Some(file) => exists|at: int|
                {
                    &&& 0 <= at < candidates.len()
                    &&& at < probes.len()
                    &&& #[trigger] candidates[at] == file
                    &&& is_executable(probes[at])
                    &&& forall|i: int| 0 <= i < at ==> !is_executable(#[trigger] probes[i])
                },
            None => forall|i: int|
                0 <= i < candidates.len() && i < probes.len() ==> !is_executable(
                    #[trigger] probes[i],
                ),
        },
{
    lemma_resolve_from(candidates, probes, 0);
}

proof fn lemma_resolve_from(candidates: Seq<Seq<char>>, probes: Seq<Option<u32>>, from: int)
    requires
        0 <= from,
    ensures
        match resolve_from(candidates, probes, from) {
            Some(file) => exists|at: int|
                {
                    &&& from <= at < candidates.len()
                    &&& at < probes.len()
                    &&& #[trigger] candidates[at] == file
                    &&& is_executable(probes[at])
                    &&& forall|i: int| from <= i < at ==> !is_executable(#[trigger] probes[i])
                },
            None => forall|i: int|
                from <= i < candidates.len() && i < probes.len() ==> !is_executable(
                    #[trigger] probes[i],
                ),
        },
    decreases candidates.len() - from,
{
    if from < candidates.len() && from < probes.len() {
        if is_executable(probes[from]) {
            assert(candidates[from] == candidates[from]);
        } else {
            lemma_resolve_from(candidates, probes, from + 1);
            match resolve_from(candidates, probes, from + 1) {
                Some(file) => {
                    let at = choose|at: int|
                        {
                            &&& from + 1 <= at < candidates.len()
                            &&& at < probes.len()
                            &&& #[trigger] candidates[at] == file
                            &&& is_executable(probes[at])
                            &&& forall|i: int|
                                from + 1 <= i < at ==> !is_executable(#[trigger] probes[i])
                        };
                    assert(candidates[at] == file);
                },
                None => {},
            }
        }
    }
}

/// With the search path unset or empty there is nothing to look at, so no
/// name resolves, whatever is on disk.
pub proof fn lemma_no_path_no_executable(
    path: Option<Seq<char>>,
    name: Seq<char>,
    probes: Seq<Option<u32>>,
)
    requires
        path matches Some(value) ==> value.len() == 0,
    ensures
        candidates_of(path, name).len() == 0,
        resolution(candidates_of(path, name), probes) is None,
{
}

} // verus!
