//! Prefix completion over the builtins and the executables that were found
//! on the search path when the shell started.

use vstd::prelude::*;
use crate::builtins::{builtin_names, registry};
use crate::text::{
    chars_of, lemma_text_le_is_total_order, lemma_text_le_total, lemma_text_le_transitive,
    same_text, starts_with, string_of, text_le, text_precedes,
};

verus! {

/// A file found in a directory of the search path.
#[derive(Clone, Debug, PartialEq, Eq)]
pub struct Executable {
    /// The file's name inside its directory.
    pub name: String,
    /// The file's full path.
    pub path: String,
}

/// One way to complete a word: what is shown, and what replaces the word.
#[derive(Clone, Debug, PartialEq, Eq)]
pub struct Candidate {
    pub display: String,
    pub replacement: String,
}

/// A name with its path.
pub type Pair = (Seq<char>, Seq<char>);

/// The files `found` as pairs of name and path.
pub open spec fn pairs_of(found: Seq<Executable>) -> Seq<Pair> {
    Seq::new(found.len(), |i: int| (found[i].name@, found[i].path@))
}

/// The names of `pairs`, in order.
pub open spec fn names_of(pairs: Seq<Pair>) -> Seq<Seq<char>> {
    Seq::new(pairs.len(), |i: int| pairs[i].0)
}

/// The index `index` after `pair` was offered to it: added at the end,
/// unless its name is in the index already.
pub open spec fn keep_first(index: Seq<Pair>, pair: Pair) -> Seq<Pair> {
    if names_of(index).contains(pair.0) {
        index
    } else {
        index.push(pair)
    }
}

/// The index of the files `found`, which are in the order of the scan: of
/// the files with one name only the first stays.
pub open spec fn first_occurrences(found: Seq<Pair>) -> Seq<Pair>
    decreases found.len(),
{
    if found.len() == 0 {
        Seq::empty()
    } else {
        keep_first(first_occurrences(found.drop_last()), found.last())
    }
}

/// The names among `names` that begin with `prefix`, in order.
pub open spec fn matching(names: Seq<Seq<char>>, prefix: Seq<char>) -> Seq<Seq<char>>
    decreases names.len(),
{
    if names.len() == 0 {
        Seq::empty()
    } else {
        let earlier = matching(names.drop_last(), prefix);
        if prefix.is_prefix_of(names.last()) {
            earlier.push(names.last())
        } else {
            earlier
        }
    }
}

/// The matching names of two lists, one after the other, are the matching
/// names of the first and then those of the second.
pub proof fn lemma_matching_of_both(
    first: Seq<Seq<char>>,
    second: Seq<Seq<char>>,
    prefix: Seq<char>,
)
    ensures
        matching(first + second, prefix) == matching(first, prefix) + matching(second, prefix),
    decreases second.len(),
{
    if second.len() == 0 {
        assert(first + second =~= first);
        assert(matching(first, prefix) + matching(second, prefix) =~= matching(first, prefix));
    } else {
        lemma_matching_of_both(first, second.drop_last(), prefix);
        assert((first + second).drop_last() =~= first + second.drop_last());
        assert((first + second).last() == second.last());
        let earlier = matching(first, prefix) + matching(second.drop_last(), prefix);
        if prefix.is_prefix_of(second.last()) {
            assert(earlier.push(second.last()) =~= matching(first, prefix) + matching(
                second.drop_last(),
                prefix,
            ).push(second.last()));
        }
    }
}

/// What the candidates `candidates` show, in order.
pub open spec fn displays(candidates: Seq<Candidate>) -> Seq<Seq<char>> {
    Seq::new(candidates.len(), |i: int| candidates[i].display@)
}

/// Every candidate replaces the word by what it shows and a space.
pub open spec fn replace_by_display(candidates: Seq<Candidate>) -> bool {
    forall|i: int|
        0 <= i < candidates.len() ==> (#[trigger] candidates[i]).replacement@
            == candidates[i].display@ + " "@
}

/// Whether `texts` is in the order of a dictionary.
pub open spec fn sorted(texts: Seq<Seq<char>>) -> bool {
    forall|i: int, j: int|
        0 <= i < j < texts.len() ==> text_le(#[trigger] texts[i], #[trigger] texts[j])
}

/// Where the word that ends at `cursor` begins: behind the last space before
/// `cursor`, or at the start of the line.
pub open spec fn span_start(line: Seq<char>, cursor: int) -> int
    decreases cursor,
{
    if cursor <= 0 {
        0
    } else if line[cursor - 1] == ' ' {
        cursor
    } else {
        span_start(line, cursor - 1)
    }
}

/// `cursor`, or the end of the line where `cursor` lies behind it.
pub open spec fn clamp_cursor(line: Seq<char>, cursor: usize) -> int {
    if cursor <= line.len() {
        cursor as int
    } else {
        line.len() as int
    }
}

/// The part of the line that completion looks at: from the start of the word
/// under the cursor up to the cursor.
pub open spec fn word_before(line: Seq<char>, cursor: usize) -> Seq<char> {
    line.subrange(span_start(line, clamp_cursor(line, cursor)), clamp_cursor(line, cursor))
}

/// The executables found on the search path, each name with the first path
/// it was found under.
pub struct ExecutableIndex {
    entries: Vec<Executable>,
}

impl View for ExecutableIndex {
    type V = Seq<Pair>;

    closed spec fn view(&self) -> Seq<Pair> {
        pairs_of(self.entries@)
    }
}

impl ExecutableIndex {
    /// An index without entries.
    pub fn new() -> (index: Self)
        ensures
            index@ == Seq::<Pair>::empty(),
    {
        let index = ExecutableIndex { entries: Vec::new() };
        assert(index@ =~= Seq::<Pair>::empty());
        index
    }

    /// The number of names in the index.
    pub fn len(&self) -> (len: usize)
        ensures
            len == self@.len(),
    {
        self.entries.len()
    }

    /// The path that the index holds for `name`.
    pub fn lookup(&self, name: &str) -> (path: Option<String>)
        ensures
            match path {
                Some(path) => self@.contains((name@, path@)),
                None => !names_of(self@).contains(name@),
            },
    {
        let mut at: usize = 0;
        while at < self.entries.len()
            invariant
                at <= self.entries.len(),
                forall|i: int| 0 <= i < at ==> self.entries[i].name@ != name@,
            decreases self.entries.len() - at,
        {
            if same_text(self.entries[at].name.as_str(), name) {
                let path = self.entries[at].path.clone();
                assert(self@[at as int] == (name@, path@));
                return Some(path);
            }
            at += 1;
        }
        assert forall|i: int| 0 <= i < names_of(self@).len() implies names_of(self@)[i]
            != name@ by {
            assert(names_of(self@)[i] == self.entries[i].name@);
        }
        None
    }

    /// Offers a file to the index. It is added unless the index holds its
    /// name already; the result tells whether it was added.
    pub fn insert(&mut self, file: Executable) -> (added: bool)
        ensures
            final(self)@ == keep_first(old(self)@, (file.name@, file.path@)),
            added == !names_of(old(self)@).contains(file.name@),
    {
        let known = self.lookup(file.name.as_str());
        match known {
            Some(path) => {
                let ghost at = choose|at: int|
                    0 <= at < self@.len() && self@[at] == (file.name@, path@);
                assert(names_of(self@)[at] == file.name@);
                false
            },
            None => {
                let ghost before = self@;
                self.entries.push(file);
                assert(self@ =~= before.push((file.name@, file.path@)));
                true
            },
        }
    }

    /// The index of the files `found`, given in the order of the scan.
    pub fn build(found: &Vec<Executable>) -> (index: Self)
        ensures
            index@ == first_occurrences(pairs_of(found@)),
    {
        let ghost all = pairs_of(found@);
        let mut index = ExecutableIndex::new();
        let mut at: usize = 0;
        assert(all.take(0) =~= Seq::<Pair>::empty());
        while at < found.len()
            invariant
                at <= found.len(),
                all == pairs_of(found@),
                index@ == first_occurrences(all.take(at as int)),
            decreases found.len() - at,
        {
            let file = Executable { name: found[at].name.clone(), path: found[at].path.clone() };
            proof {
                assert(all.take(at + 1).drop_last() =~= all.take(at as int));
                assert(all.take(at + 1).last() == (file.name@, file.path@));
            }
            index.insert(file);
            at += 1;
        }
        assert(all.take(at as int) =~= all);
        index
    }

    /// The names in the index, in the order in which they were found.
    pub fn names(&self) -> (names: Vec<String>)
        ensures
            names.deep_view() == names_of(self@),
    {
        let mut names: Vec<String> = Vec::new();
        let mut at: usize = 0;
        while at < self.entries.len()
            invariant
                at <= self.entries.len(),
                names.deep_view() == names_of(self@).take(at as int),
            decreases self.entries.len() - at,
        {
            let ghost before = names.deep_view();
            let name = self.entries[at].name.clone();
            names.push(name);
            assert(names.deep_view() =~= before.push(self.entries[at as int].name@));
            at += 1;
            assert(names.deep_view() =~= names_of(self@).take(at as int));
        }
        assert(names_of(self@).take(at as int) =~= names_of(self@));
        names
    }
}

/// The names that completion offers: the builtins and the executables of the
/// index.
pub struct AutoCompleter {
    builtins: Vec<String>,
    executables: ExecutableIndex,
}

impl AutoCompleter {
    /// The names of the builtins, as completion offers them.
    pub closed spec fn builtins(&self) -> Seq<Seq<char>> {
        self.builtins.deep_view()
    }

    /// The index of executables.
    pub closed spec fn executables(&self) -> Seq<Pair> {
        self.executables@
    }

    /// All names that completion offers: the builtins, then the executables
    /// in the order in which they were found.
    pub open spec fn names(&self) -> Seq<Seq<char>> {
        self.builtins() + names_of(self.executables())
    }

    /// A completer for every builtin and for the files `found` on the search
    /// path, given in the order of the scan.
    pub fn new(found: &Vec<Executable>) -> (completer: Self)
        ensures
            completer.builtins() == registry(),
            completer.executables() == first_occurrences(pairs_of(found@)),
    {
        AutoCompleter { builtins: builtin_names(), executables: ExecutableIndex::build(found) }
    }

    /// The path that the index holds for `name`.
    pub fn path_of(&self, name: &str) -> (path: Option<String>)
        ensures
            match path {
                Some(path) => self.executables().contains((name@, path@)),
                None => !names_of(self.executables()).contains(name@),
            },
    {
        self.executables.lookup(name)
    }

    /// The candidates for a word that begins with `prefix`: the matching
    /// builtins, then the matching executables, each in its stored order.
    pub fn autocomplete(&self, prefix: &str) -> (candidates: Vec<Candidate>)
        ensures
            displays(candidates@) == matching(self.names(), prefix@),
            replace_by_display(candidates@),
    {
        let known = self.executables.names();
        let ghost first = self.builtins.deep_view();
        let ghost second = known.deep_view();
        let mut candidates: Vec<Candidate> = Vec::new();
        add_matching(&mut candidates, &self.builtins, prefix);
        add_matching(&mut candidates, &known, prefix);
        proof {
            lemma_matching_of_both(first, second, prefix@);
            assert(Seq::<Seq<char>>::empty() + matching(first, prefix@) =~= matching(
                first,
                prefix@,
            ));
        }
        candidates
    }

    /// The completion of the word that ends at `cursor`, a position counted
    /// in characters. The result is the position where that word begins and
    /// the candidates for it in the order of a dictionary.
    pub fn complete(&self, line: &str, cursor: usize) -> (found: (usize, Vec<Candidate>))
        ensures
            found.0 == span_start(line@, clamp_cursor(line@, cursor)),
            sorted(displays(found.1@)),
            displays(found.1@).to_multiset() == matching(
                self.names(),
                word_before(line@, cursor),
            ).to_multiset(),
            replace_by_display(found.1@),
    {
        let chars = chars_of(line);
        let end = if cursor <= chars.len() {
            cursor
        } else {
            chars.len()
        };
        let start = word_start(&chars, end);
        let prefix = string_of(&chars, start, end);
        let candidates = self.autocomplete(prefix.as_str());
        (start, sort_candidates(candidates))
    }
}

/// Adds to `candidates` one candidate for each of `names` that begins with
/// `prefix`.
fn add_matching(candidates: &mut Vec<Candidate>, names: &Vec<String>, prefix: &str)
    requires
        replace_by_display(old(candidates)@),
    ensures
        displays(final(candidates)@) == displays(old(candidates)@) + matching(
            names.deep_view(),
            prefix@,
        ),
        replace_by_display(final(candidates)@),
{
    let ghost all = names.deep_view();
    let ghost start = displays(candidates@);
    let mut at: usize = 0;
    assert(all.take(0) =~= Seq::<Seq<char>>::empty());
    assert(start + matching(all.take(0), prefix@) =~= start);
    while at < names.len()
        invariant
            at <= names.len(),
            all == names.deep_view(),
            displays(candidates@) == start + matching(all.take(at as int), prefix@),
            replace_by_display(candidates@),
        decreases names.len() - at,
    {
        let name = &names[at];
        proof {
            assert(all.take(at + 1).drop_last() =~= all.take(at as int));
            assert(all.take(at + 1).last() == name@);
        }
        if starts_with(name.as_str(), prefix) {
            let ghost before = candidates@;
            let mut replacement = name.clone();
            replacement.append(" ");
            let candidate = Candidate { display: name.clone(), replacement };
            candidates.push(candidate);
            assert(displays(candidates@) =~= displays(before).push(name@));
            assert(displays(candidates@) =~= start + matching(all.take(at + 1), prefix@));
            assert forall|i: int| 0 <= i < candidates@.len() implies (
            #[trigger] candidates@[i]).replacement@ == candidates@[i].display@ + " "@ by {
                if i < before.len() {
                    assert(candidates@[i] == before[i]);
                }
            }
        }
        at += 1;
    }
    assert(all.take(at as int) =~= all);
}

/// Where the word that ends at `end` begins.
fn word_start(line: &Vec<char>, end: usize) -> (start: usize)
    requires
        end <= line.len(),
    ensures
        start == span_start(line@, end as int),
        start <= end,
{
    let mut start = end;
    while start > 0 && line[start - 1] != ' '
        invariant
            start <= end <= line.len(),
            span_start(line@, end as int) == span_start(line@, start as int),
        decreases start,
    {
        start -= 1;
    }
    start
}

/// The candidates in the order of a dictionary by what they show.
pub fn sort_candidates(candidates: Vec<Candidate>) -> (ordered: Vec<Candidate>)
    ensures
        sorted(displays(ordered@)),
        displays(ordered@).to_multiset() == displays(candidates@).to_multiset(),
        replace_by_display(candidates@) ==> replace_by_display(ordered@),
{
    broadcast use {vstd::seq_lib::group_to_multiset_ensures, vstd::multiset::group_multiset_axioms};

    let ghost given = candidates@;
    let mut rest = candidates;
    let mut ordered: Vec<Candidate> = Vec::new();
    assert(displays(ordered@) =~= Seq::<Seq<char>>::empty());
    while rest.len() > 0
        invariant
            sorted(displays(ordered@)),
            displays(ordered@).to_multiset().add(displays(rest@).to_multiset()) == displays(
                given,
            ).to_multiset(),
            replace_by_display(given) ==> replace_by_display(ordered@) && replace_by_display(
                rest@,
            ),
        decreases rest.len(),
    {
        let ghost rest_before = rest@;
        let ghost before = ordered@;
        let next = rest.pop().unwrap();
        let ghost shown = next.display@;
        let mut at: usize = 0;
        while at < ordered.len() && text_precedes(
            ordered[at].display.as_str(),
            next.display.as_str(),
        )
            invariant
                at <= ordered.len(),
                ordered@ == before,
                forall|i: int|
                    0 <= i < at ==> text_le(#[trigger] displays(before)[i], next.display@),
            decreases ordered.len() - at,
        {
            assert(displays(before)[at as int] == ordered[at as int].display@);
            at += 1;
        }
        ordered.insert(at, next);
        proof {
            let old_shown = displays(before);
            let new_shown = displays(ordered@);
            assert(new_shown =~= old_shown.insert(at as int, shown));
            assert(displays(rest_before) =~= displays(rest@).push(shown));
            vstd::seq_lib::to_multiset_insert(old_shown, at as int, shown);
            displays(rest@).to_multiset_ensures();
            assert(displays(rest_before).to_multiset() =~= displays(rest@).to_multiset().insert(
                shown,
            ));
            assert(new_shown.to_multiset() =~= old_shown.to_multiset().insert(shown));
            assert(new_shown.to_multiset().add(displays(rest@).to_multiset()) =~= displays(
                given,
            ).to_multiset());
            assert forall|i: int, j: int| 0 <= i < j < new_shown.len() implies text_le(
                #[trigger] new_shown[i],
                #[trigger] new_shown[j],
            ) by {
                if j < at {
                    assert(new_shown[i] == old_shown[i] && new_shown[j] == old_shown[j]);
                } else if j == at {
                    assert(new_shown[i] == old_shown[i]);
                } else {
                    assert(new_shown[j] == old_shown[j - 1]);
                    if i < at {
                        assert(new_shown[i] == old_shown[i]);
                    } else {
                        assert(old_shown[at as int] == before[at as int].display@);
                        lemma_text_le_total(old_shown[at as int], shown);
                        if i == at {
                            if j - 1 > at {
                                lemma_text_le_transitive(
                                    shown,
                                    old_shown[at as int],
                                    old_shown[j - 1],
                                );
                            }
                        } else {
                            assert(new_shown[i] == old_shown[i - 1]);
                        }
                    }
                }
            }
            if replace_by_display(given) {
                assert forall|i: int| 0 <= i < ordered@.len() implies (
                #[trigger] ordered@[i]).replacement@ == ordered@[i].display@ + " "@ by {
                    if i < at {
                        assert(ordered@[i] == before[i]);
                    } else if i == at {
                        assert(ordered@[i] == rest_before[rest_before.len() - 1]);
                    } else {
                        assert(ordered@[i] == before[i - 1]);
                    }
                }
                assert forall|i: int| 0 <= i < rest@.len() implies (
                #[trigger] rest@[i]).replacement@ == rest@[i].display@ + " "@ by {
                    assert(rest@[i] == rest_before[i]);
                }
            }
        }
    }
    assert(displays(rest@) =~= Seq::<Seq<char>>::empty());
    ordered
}

/// No name stands twice in `names`.
pub open spec fn distinct(names: Seq<Seq<char>>) -> bool {
    forall|i: int, j: int| 0 <= i < j < names.len() ==> names[i] != names[j]
}

/// `found[at]` is the first of the files `found` that has its name.
pub open spec fn is_first_of_its_name(found: Seq<Pair>, at: int) -> bool {
    &&& 0 <= at < found.len()
    &&& forall|j: int| 0 <= j < at ==> (#[trigger] found[j]).0 != found[at].0
}

/// `pair` is among the files `found`, and no file before it has its name.
pub open spec fn comes_first(found: Seq<Pair>, pair: Pair) -> bool {
    exists|at: int| is_first_of_its_name(found, at) && #[trigger] found[at] == pair
}

/// The index is a mapping from names to paths: no name stands in it twice,
/// every name that was found is in it, and each of its entries is the first
/// file found under that name.
pub proof fn lemma_index_keeps_first(found: Seq<Pair>)
    ensures
        distinct(names_of(first_occurrences(found))),
        forall|i: int|
            0 <= i < found.len() ==> names_of(first_occurrences(found)).contains(
                (#[trigger] found[i]).0,
            ),
        forall|k: int|
            0 <= k < first_occurrences(found).len() ==> comes_first(
                found,
                #[trigger] first_occurrences(found)[k],
            ),
    decreases found.len(),
{
    let index = first_occurrences(found);
    if found.len() > 0 {
        let earlier = found.drop_last();
        let before = first_occurrences(earlier);
        let last = found.last();
        lemma_index_keeps_first(earlier);
        let added = !names_of(before).contains(last.0);
        assert forall|i: int, j: int| 0 <= i < j < names_of(index).len() implies names_of(index)[i]
            != names_of(index)[j] by {
            assert(names_of(index)[i] == names_of(before)[i]);
            if j < before.len() {
                assert(names_of(index)[j] == names_of(before)[j]);
            }
        }
        assert forall|i: int| 0 <= i < found.len() implies names_of(index).contains(
            (#[trigger] found[i]).0,
        ) by {
            if i < earlier.len() {
                assert(found[i] == earlier[i]);
                let k = choose|k: int|
                    0 <= k < names_of(before).len() && names_of(before)[k] == earlier[i].0;
                assert(names_of(index)[k] == found[i].0);
            } else if added {
                assert(names_of(index)[before.len() as int] == last.0);
            } else {
                let k = choose|k: int|
                    0 <= k < names_of(before).len() && names_of(before)[k] == last.0;
                assert(names_of(index)[k] == last.0);
            }
        }
        assert forall|k: int| 0 <= k < index.len() implies comes_first(
            found,
            #[trigger] index[k],
        ) by {
            if k < before.len() {
                assert(index[k] == before[k]);
                let at = choose|at: int|
                    is_first_of_its_name(earlier, at) && #[trigger] earlier[at] == before[k];
                assert forall|j: int| 0 <= j < at implies (#[trigger] found[j]).0
                    != found[at].0 by {
                    assert(found[j] == earlier[j]);
                }
                assert(is_first_of_its_name(found, at) && found[at] == index[k]);
            } else {
                let at = found.len() - 1;
                assert forall|j: int| 0 <= j < at implies (#[trigger] found[j]).0
                    != found[at].0 by {
                    assert(found[j] == earlier[j]);
                    assert(names_of(before).contains(earlier[j].0));
                }
                assert(is_first_of_its_name(found, at) && found[at] == index[k]);
            }
        }
    }
}

/// There is one way only to put given texts in order: two sorted lists of
/// the same texts are the same list.
pub proof fn lemma_sorted_is_unique(first: Seq<Seq<char>>, second: Seq<Seq<char>>)
    requires
        sorted(first),
        sorted(second),
        first.to_multiset() == second.to_multiset(),
    ensures
        first == second,
{
    let le = |a: Seq<char>, b: Seq<char>| text_le(a, b);
    lemma_text_le_is_total_order();
    assert(vstd::relations::sorted_by(first, le)) by {
        assert forall|i: int, j: int| 0 <= i < j < first.len() implies #[trigger] le(
            first[i],
            first[j],
        ) by {
            assert(text_le(first[i], first[j]));
        }
    }
    assert(vstd::relations::sorted_by(second, le)) by {
        assert forall|i: int, j: int| 0 <= i < j < second.len() implies #[trigger] le(
            second[i],
            second[j],
        ) by {
            assert(text_le(second[i], second[j]));
        }
    }
    vstd::seq_lib::lemma_sorted_unique(first, second, le);
}

/// The word under the cursor begins behind a space or at the start of the
/// line, and holds no space up to the cursor.
pub proof fn lemma_span_start_is_behind_the_last_space(line: Seq<char>, cursor: int)
    requires
        0 <= cursor <= line.len(),
    ensures
        0 <= span_start(line, cursor) <= cursor,
        span_start(line, cursor) == 0 || line[span_start(line, cursor) - 1] == ' ',
        forall|i: int| span_start(line, cursor) <= i < cursor ==> line[i] != ' ',
    decreases cursor,
{
    if cursor > 0 && line[cursor - 1] != ' ' {
        lemma_span_start_is_behind_the_last_space(line, cursor - 1);
    }
}

} // verus!
