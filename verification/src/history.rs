//! The history buffer: the accepted input lines in order, how they are
//! listed, and how they are written to and read from a file.

use vstd::prelude::*;
use crate::text::{chars_of, lemma_runs_first, runs, split_runs, starts_with};

verus! {

/// The decimal digit for `d`, which is below ten.
pub open spec fn digit_char(d: nat) -> char {
    if d == 0 {
        '0'
    } else if d == 1 {
        '1'
    } else if d == 2 {
        '2'
    } else if d == 3 {
        '3'
    } else if d == 4 {
        '4'
    } else if d == 5 {
        '5'
    } else if d == 6 {
        '6'
    } else if d == 7 {
        '7'
    } else if d == 8 {
        '8'
    } else {
        '9'
    }
}

/// `n` written in decimal, without leading zeros.
pub open spec fn decimal(n: nat) -> Seq<char>
    decreases n,
{
    if n < 10 {
        seq![digit_char(n)]
    } else {
        decimal(n / 10).push(digit_char(n % 10))
    }
}

/// Whether `c` is one of `0` to `9`.
pub open spec fn is_digit(c: char) -> bool {
    '0' <= c <= '9'
}

/// The value of the decimal digit `c`.
pub open spec fn digit_value(c: char) -> nat {
    (c as u32 - '0' as u32) as nat
}

/// The number that the decimal digits `digits` write.
pub open spec fn digits_value(digits: Seq<char>) -> nat
    decreases digits.len(),
{
    if digits.len() == 0 {
        0
    } else {
        digits_value(digits.drop_last()) * 10 + digit_value(digits.last())
    }
}

/// Whether `digits` is made of decimal digits only.
pub open spec fn all_digits(digits: Seq<char>) -> bool {
    forall|i: int| 0 <= i < digits.len() ==> is_digit(#[trigger] digits[i])
}

/// The count that `arg` names: one or more decimal digits after an optional
/// `+`, with a value that a `usize` holds. Anything else names none.
pub open spec fn count_of(arg: Seq<char>) -> Option<nat> {
    let digits = if arg.len() > 0 && arg[0] == '+' {
        arg.skip(1)
    } else {
        arg
    };
    if digits.len() > 0 && all_digits(digits) && digits_value(digits) <= usize::MAX {
        Some(digits_value(digits))
    } else {
        None
    }
}

/// One line of a listing: four spaces, the 1-based index, two spaces, the
/// entry, a newline.
pub open spec fn listing_line(index: nat, entry: Seq<char>) -> Seq<char> {
    "    "@ + decimal(index) + "  "@ + entry + "\n"@
}

/// The listing lines of `entries[start..]`, each under its index in the
/// whole buffer.
pub open spec fn listing_from(entries: Seq<Seq<char>>, start: int) -> Seq<char>
    decreases entries.len() - start,
{
    if start < 0 || start >= entries.len() {
        Seq::empty()
    } else {
        listing_line((start + 1) as nat, entries[start]) + listing_from(entries, start + 1)
    }
}

/// Where a listing of the last `count` entries starts; at the front when
/// there is no count or the buffer holds fewer.
pub open spec fn listing_start(len: nat, count: Option<nat>) -> int {
    match count {
        Some(n) if n < len => len - n,
        _ => 0,
    }
}

/// The listing of the last `count` entries, or of all where `count` is
/// `None`.
pub open spec fn listing_text(entries: Seq<Seq<char>>, count: Option<nat>) -> Seq<char> {
    listing_from(entries, listing_start(entries.len(), count))
}

/// `entries[start..]` as a file's text: every entry followed by a newline.
pub open spec fn lines_from(entries: Seq<Seq<char>>, start: int) -> Seq<char>
    decreases entries.len() - start,
{
    if start < 0 || start >= entries.len() {
        Seq::empty()
    } else {
        entries[start] + "\n"@ + lines_from(entries, start + 1)
    }
}

/// The entries that a file's text holds: its non-empty lines.
pub open spec fn entries_of(text: Seq<char>) -> Seq<Seq<char>> {
    runs(text, '\n')
}

/// The header line that some line editors put in front of a history file.
pub open spec fn header() -> Seq<char> {
    "#V2\n"@
}

/// `text` without a leading header line.
pub open spec fn without_header(text: Seq<char>) -> Seq<char> {
    if header().is_prefix_of(text) {
        text.skip(header().len() as int)
    } else {
        text
    }
}

fn digit_of(d: usize) -> (c: char)
    requires
        d < 10,
    ensures
        c == digit_char(d as nat),
{
    if d == 0 {
        '0'
    } else if d == 1 {
        '1'
    } else if d == 2 {
        '2'
    } else if d == 3 {
        '3'
    } else if d == 4 {
        '4'
    } else if d == 5 {
        '5'
    } else if d == 6 {
        '6'
    } else if d == 7 {
        '7'
    } else if d == 8 {
        '8'
    } else {
        '9'
    }
}

/// Appends `n` in decimal to `out`.
pub fn push_decimal(out: &mut String, n: usize)
    ensures
        final(out)@ == old(out)@ + decimal(n as nat),
    decreases n,
{
    if n >= 10 {
        push_decimal(out, n / 10);
    }
    out.push(digit_of(n % 10));
    assert(out@ =~= old(out)@ + decimal(n as nat));
}

proof fn lemma_digits_value_grows(digits: Seq<char>, upto: int)
    requires
        0 <= upto <= digits.len(),
    ensures
        digits_value(digits.take(upto)) <= digits_value(digits),
    decreases digits.len() - upto,
{
    if upto < digits.len() {
        lemma_digits_value_grows(digits, upto + 1);
        assert(digits.take(upto + 1).drop_last() =~= digits.take(upto));
    } else {
        assert(digits.take(upto) =~= digits);
    }
}

/// Reads `arg` as a count.
pub fn parse_count(arg: &str) -> (count: Option<usize>)
    ensures
        match count {
            Some(n) => count_of(arg@) == Some(n as nat),
            None => count_of(arg@) is None,
        },
{
    let chars = chars_of(arg);
    let start: usize = if chars.len() > 0 && chars[0] == '+' {
        1
    } else {
        0
    };
    let ghost digits = chars@.skip(start as int);
    assert(chars@.skip(0) =~= chars@);
    if start >= chars.len() {
        return None;
    }
    let mut value: usize = 0;
    let mut at: usize = start;
    assert(digits.take(0) =~= Seq::<char>::empty());
    while at < chars.len()
        invariant
            start <= at <= chars.len(),
            chars@ == arg@,
            start == (if arg@.len() > 0 && arg@[0] == '+' {
                1int
            } else {
                0int
            }),
            digits == chars@.skip(start as int),
            all_digits(digits.take(at - start)),
            value == digits_value(digits.take(at - start)),
        decreases chars.len() - at,
    {
        let c = chars[at];
        assert(digits[at - start] == c);
        if !('0' <= c && c <= '9') {
            return None;
        }
        let d = (c as u32 - '0' as u32) as usize;
        proof {
            let longer = digits.take(at - start + 1);
            assert(longer.drop_last() =~= digits.take(at - start));
            assert(longer.last() == c);
            assert(digits_value(longer) == value * 10 + d);
            assert(all_digits(longer));
            lemma_digits_value_grows(digits, at - start + 1);
            assert(arg@.skip(0) =~= arg@);
        }
        if value > (usize::MAX - d) / 10 {
            assert(value * 10 + d > usize::MAX);
            return None;
        }
        value = value * 10 + d;
        at += 1;
    }
    assert(digits.take(at - start) =~= digits);
    Some(value)
}

/// The buffer after `line` was offered to it: appended, unless it is empty.
pub open spec fn accept(entries: Seq<Seq<char>>, line: Seq<char>) -> Seq<Seq<char>> {
    if line.len() > 0 {
        entries.push(line)
    } else {
        entries
    }
}

/// The buffer after each of `lines` was offered to it in turn.
pub open spec fn accept_all(entries: Seq<Seq<char>>, lines: Seq<Seq<char>>) -> Seq<Seq<char>>
    decreases lines.len(),
{
    if lines.len() == 0 {
        entries
    } else {
        accept(accept_all(entries, lines.drop_last()), lines.last())
    }
}

/// The accepted input lines of a session, oldest first, and how many of them
/// a file already holds.
pub struct HistoryBuffer {
    entries: Vec<String>,
    saved: usize,
}

impl View for HistoryBuffer {
    type V = Seq<Seq<char>>;

    closed spec fn view(&self) -> Seq<Seq<char>> {
        self.entries.deep_view()
    }
}

impl HistoryBuffer {
    /// How many of the entries, counted from the oldest, were written to or
    /// read from a file already.
    pub closed spec fn saved(&self) -> nat {
        self.saved as nat
    }

    /// An empty buffer.
    pub fn new() -> (buffer: Self)
        ensures
            buffer@ == Seq::<Seq<char>>::empty(),
            buffer.saved() == 0,
    {
        let buffer = HistoryBuffer { entries: Vec::new(), saved: 0 };
        assert(buffer@ =~= Seq::<Seq<char>>::empty());
        buffer
    }

    /// The number of entries.
    pub fn len(&self) -> (len: usize)
        ensures
            len == self@.len(),
    {
        self.entries.len()
    }

    /// Offers an input line to the buffer: a non-empty line is appended, an
    /// empty one changes nothing.
    pub fn record(&mut self, line: &str) -> (added: bool)
        ensures
            added == (line@.len() > 0),
            final(self)@ == accept(old(self)@, line@),
            final(self).saved() == old(self).saved(),
    {
        if line.is_empty() {
            return false;
        }
        let ghost before = self.entries.deep_view();
        self.entries.push(line.to_owned());
        assert(self.entries.deep_view() =~= before.push(line@));
        true
    }

    /// A copy of the entries, oldest first.
    pub fn entries(&self) -> (entries: Vec<String>)
        ensures
            entries.deep_view() == self@,
    {
        let mut copy: Vec<String> = Vec::new();
        let mut at: usize = 0;
        while at < self.entries.len()
            invariant
                at <= self.entries.len(),
                copy.deep_view() == self.entries.deep_view().take(at as int),
            decreases self.entries.len() - at,
        {
            let ghost before = copy.deep_view();
            let entry = self.entries[at].clone();
            assert(entry@ == self.entries[at as int]@);
            copy.push(entry);
            assert(copy.deep_view() =~= before.push(entry@));
            at += 1;
            assert(copy.deep_view() =~= self.entries.deep_view().take(at as int));
        }
        assert(self.entries.deep_view().take(at as int) =~= self.entries.deep_view());
        copy
    }

    /// The listing of the last `count` entries, or of all of them where
    /// `count` is `None` or exceeds their number. Each entry keeps its 1-based
    /// index in the whole buffer.
    pub fn listing(&self, count: Option<usize>) -> (text: String)
        ensures
            text@ == listing_text(
                self@,
                match count {
                    Some(n) => Some(n as nat),
                    None => None,
                },
            ),
    {
        let len = self.entries.len();
        let start: usize = match count {
            Some(n) => if n < len {
                len - n
            } else {
                0
            },
            None => 0,
        };
        let ghost all = self.entries.deep_view();
        let mut text = String::new();
        let mut at: usize = start;
        assert(text@ + listing_from(all, start as int) =~= listing_from(all, start as int));
        while at < len
            invariant
                start <= at <= len,
                len == self.entries.len(),
                all == self.entries.deep_view(),
                text@ + listing_from(all, at as int) == listing_from(all, start as int),
            decreases len - at,
        {
            let ghost before = text@;
            text.append("    ");
            push_decimal(&mut text, at + 1);
            text.append("  ");
            text.append(self.entries[at].as_str());
            text.append("\n");
            assert(text@ =~= before + listing_line((at + 1) as nat, all[at as int]));
            assert(text@ + listing_from(all, at + 1) =~= before + listing_from(all, at as int));
            at += 1;
        }
        assert(text@ + listing_from(all, at as int) =~= text@);
        text
    }

    fn lines_text(&self, start: usize) -> (text: String)
        ensures
            text@ == lines_from(self@, start as int),
    {
        let len = self.entries.len();
        let ghost all = self.entries.deep_view();
        let mut text = String::new();
        let mut at: usize = start;
        assert(text@ + lines_from(all, start as int) =~= lines_from(all, start as int));
        while at < len
            invariant
                start <= at,
                len == self.entries.len(),
                all == self.entries.deep_view(),
                text@ + lines_from(all, at as int) == lines_from(all, start as int),
            decreases len - at,
        {
            let ghost before = text@;
            text.append(self.entries[at].as_str());
            text.append("\n");
            assert(text@ + lines_from(all, at + 1) =~= before + lines_from(all, at as int));
            at += 1;
        }
        assert(text@ + lines_from(all, at as int) =~= text@);
        text
    }

    /// The text of a history file that holds every entry: one entry per
    /// line, no header.
    pub fn file_text(&self) -> (text: String)
        ensures
            text@ == lines_from(self@, 0),
    {
        self.lines_text(0)
    }

    /// The lines to add to a history file that holds the saved entries
    /// already: the entries that came after them.
    pub fn unsaved_text(&self) -> (text: String)
        ensures
            text@ == lines_from(self@, self.saved() as int),
    {
        self.lines_text(self.saved)
    }

    /// Notes that a file now holds every entry.
    pub fn mark_saved(&mut self)
        ensures
            final(self)@ == old(self)@,
            final(self).saved() == old(self)@.len(),
    {
        self.saved = self.entries.len();
    }

    /// Appends the entries that a history file's text holds, its non-empty
    /// lines in order, and counts every entry as saved.
    pub fn load(&mut self, text: &str)
        ensures
            final(self)@ == old(self)@ + entries_of(text@),
            final(self).saved() == final(self)@.len(),
    {
        let mut lines = split_runs(text, '\n');
        let ghost before = self.entries.deep_view();
        let ghost added = lines.deep_view();
        self.entries.append(&mut lines);
        assert(self.entries.deep_view() =~= before + added);
        self.saved = self.entries.len();
    }

    /// Drops every entry.
    pub fn clear(&mut self)
        ensures
            final(self)@ == Seq::<Seq<char>>::empty(),
            final(self).saved() == 0,
    {
        self.entries = Vec::new();
        self.saved = 0;
        assert(self@ =~= Seq::<Seq<char>>::empty());
    }
}

/// `text` without the header line that a line editor may have put in front.
pub fn strip_header(text: &str) -> (stripped: String)
    ensures
        stripped@ == without_header(text@),
{
    let chars = chars_of(text);
    let mark = chars_of("#V2\n");
    if starts_with(text, "#V2\n") {
        crate::text::string_of(&chars, mark.len(), chars.len())
    } else {
        text.to_owned()
    }
}

/// After `lines.len()` non-empty lines were offered to an empty buffer it
/// holds exactly those lines, so its length is their number.
pub proof fn lemma_accepted_lines_are_counted(lines: Seq<Seq<char>>)
    requires
        forall|i: int| 0 <= i < lines.len() ==> (#[trigger] lines[i]).len() > 0,
    ensures
        accept_all(Seq::empty(), lines) == lines,
        accept_all(Seq::empty(), lines).len() == lines.len(),
    decreases lines.len(),
{
    if lines.len() > 0 {
        lemma_accepted_lines_are_counted(lines.drop_last());
        assert(lines.drop_last().push(lines.last()) =~= lines);
    } else {
        assert(lines =~= Seq::<Seq<char>>::empty());
    }
}

proof fn lemma_lines_then_entries(entries: Seq<Seq<char>>, start: int)
    requires
        0 <= start <= entries.len(),
        forall|i: int| 0 <= i < entries.len() ==> (#[trigger] entries[i]).len() > 0,
        crate::text::all_free_of(entries, '\n'),
    ensures
        entries_of(lines_from(entries, start)) == entries.skip(start),
    decreases entries.len() - start,
{
    reveal_strlit("\n");
    assert("\n"@ =~= seq!['\n']);
    if start < entries.len() {
        let entry = entries[start];
        let rest = lines_from(entries, start + 1);
        lemma_lines_then_entries(entries, start + 1);
        assert forall|j: int| 0 <= j < entry.len() implies (#[trigger] entry[j]) != '\n' by {
            assert(entries[start][j] != '\n');
        }
        lemma_runs_first(entry, '\n', rest);
        assert(lines_from(entries, start) =~= entry + seq!['\n'] + rest);
        assert(seq![entry] + entries.skip(start + 1) =~= entries.skip(start));
    } else {
        assert(entries.skip(start) =~= Seq::<Seq<char>>::empty());
    }
}

/// Writing the buffer to a file and reading the file into an empty buffer
/// gives the same entries, as long as no entry is empty or holds a newline.
pub proof fn lemma_write_then_read(entries: Seq<Seq<char>>)
    requires
        forall|i: int| 0 <= i < entries.len() ==> (#[trigger] entries[i]).len() > 0,
        crate::text::all_free_of(entries, '\n'),
    ensures
        Seq::<Seq<char>>::empty() + entries_of(lines_from(entries, 0)) == entries,
{
    lemma_lines_then_entries(entries, 0);
    assert(Seq::<Seq<char>>::empty() + entries.skip(0) =~= entries);
}

proof fn lemma_decimal_digits(n: nat)
    ensures
        decimal(n).len() > 0,
        all_digits(decimal(n)),
        digits_value(decimal(n)) == n,
    decreases n,
{
    let text = decimal(n);
    let last = digit_char(n % 10);
    assert(is_digit(last) && digit_value(last) == n % 10);
    if n < 10 {
        assert(text.drop_last() =~= Seq::<char>::empty());
        assert(text.last() == last);
        assert(digits_value(text.drop_last()) == 0);
    } else {
        lemma_decimal_digits(n / 10);
        assert(text.drop_last() =~= decimal(n / 10));
        assert(text.last() == last);
        assert forall|i: int| 0 <= i < text.len() implies is_digit(#[trigger] text[i]) by {
            if i < text.len() - 1 {
                assert(text[i] == decimal(n / 10)[i]);
            }
        }
    }
}

/// A number written in decimal is read back as the same number.
pub proof fn lemma_decimal_is_read_back(n: nat)
    requires
        n <= usize::MAX,
    ensures
        count_of(decimal(n)) == Some(n),
{
    lemma_decimal_digits(n);
    assert(is_digit(decimal(n)[0]));
}

} // verus!
