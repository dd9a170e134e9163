//! Splitting one input line into argument words under the quoting rules.

use vstd::prelude::*;
use crate::text::{all_nonempty, chars_of, flush, join, lemma_join_first, runs, runs_from};

verus! {

/// Which quotation the lexer is inside.
#[derive(Clone, Copy, Debug, PartialEq, Eq, Structural)]
pub enum Quote {
    Outside,
    Single,
    Double,
}

/// The characters that a backslash escapes inside double quotes.
pub open spec fn escapable_in_double(c: char) -> bool {
    c == '\\' || c == '"' || c == '$' || c == '`'
}

/// The words that the rest of `line` yields, scanned from position `at`
/// inside quotation `quote` with `word` pending.
///
/// Outside quotes a space ends the pending word, a quote character opens its
/// quotation, and a backslash takes the next character as it is; a backslash
/// at the very end is dropped. Inside single quotes everything up to the
/// closing quote is literal. Inside double quotes a backslash escapes only
/// `\`, `"`, `$` and the backtick, and is literal before anything else. The
/// end of the line closes an open quotation.
pub open spec fn lex_from(
    line: Seq<char>,
    at: int,
    quote: Quote,
    word: Seq<char>,
) -> Seq<Seq<char>>
    decreases line.len() - at,
{
    if at < 0 || at >= line.len() {
        flush(word)
    } else {
        let c = line[at];
        match quote {
            Quote::Outside => {
                if c == ' ' {
                    flush(word) + lex_from(line, at + 1, Quote::Outside, Seq::empty())
                } else if c == '\'' {
                    lex_from(line, at + 1, Quote::Single, word)
                } else if c == '"' {
                    lex_from(line, at + 1, Quote::Double, word)
                } else if c == '\\' {
                    if at + 1 < line.len() {
                        lex_from(line, at + 2, Quote::Outside, word.push(line[at + 1]))
                    } else {
                        lex_from(line, at + 1, Quote::Outside, word)
                    }
                } else {
                    lex_from(line, at + 1, Quote::Outside, word.push(c))
                }
            },
            Quote::Single => {
                if c == '\'' {
                    lex_from(line, at + 1, Quote::Outside, word)
                } else {
                    lex_from(line, at + 1, Quote::Single, word.push(c))
                }
            },
            Quote::Double => {
                if c == '"' {
                    lex_from(line, at + 1, Quote::Outside, word)
                } else if c == '\\' && at + 1 < line.len() && escapable_in_double(line[at + 1]) {
                    lex_from(line, at + 2, Quote::Double, word.push(line[at + 1]))
                } else {
                    lex_from(line, at + 1, Quote::Double, word.push(c))
                }
            },
        }
    }
}

/// The argument words of `line`.
pub open spec fn tokens_of(line: Seq<char>) -> Seq<Seq<char>> {
    lex_from(line, 0, Quote::Outside, Seq::empty())
}

/// Splits `line` into its argument words. Malformed quoting is tolerated, so
/// every line has a result.
pub fn tokenize(line: &str) -> (words: Vec<String>)
    ensures
        words.deep_view() == tokens_of(line@),
        forall|i: int| 0 <= i < words.len() ==> words[i]@.len() > 0,
{
    let chars = chars_of(line);
    let n = chars.len();
    let mut words: Vec<String> = Vec::new();
    let mut word = String::new();
    let mut quote = Quote::Outside;
    let mut at: usize = 0;
    assert(words.deep_view() + tokens_of(line@) =~= tokens_of(line@));
    while at < n
        invariant
            at <= n,
            n == chars.len(),
            chars@ == line@,
            tokens_of(line@) == words.deep_view() + lex_from(line@, at as int, quote, word@),
            forall|i: int| 0 <= i < words.len() ==> words[i]@.len() > 0,
        decreases n - at,
    {
        let c = chars[at];
        let ghost before = words.deep_view();
        match quote {
            Quote::Outside => {
                if c == ' ' {
                    let ghost rest = lex_from(line@, at + 1, Quote::Outside, Seq::empty());
                    if !word.as_str().is_empty() {
                        let ghost finished = word@;
                        words.push(word);
                        word = String::new();
                        assert(words.deep_view() =~= before.push(finished));
                        assert(before.push(finished) + rest =~= before + (flush(finished) + rest));
                    } else {
                        assert(word@ =~= Seq::<char>::empty());
                        assert(before + rest =~= before + (flush(word@) + rest));
                    }
                    at += 1;
                } else if c == '\'' {
                    quote = Quote::Single;
                    at += 1;
                } else if c == '"' {
                    quote = Quote::Double;
                    at += 1;
                } else if c == '\\' {
                    if at + 1 < n {
                        word.push(chars[at + 1]);
                        at += 2;
                    } else {
                        at += 1;
                    }
                } else {
                    word.push(c);
                    at += 1;
                }
            },
            Quote::Single => {
                if c == '\'' {
                    quote = Quote::Outside;
                } else {
                    word.push(c);
                }
                at += 1;
            },
            Quote::Double => {
                if c == '"' {
                    quote = Quote::Outside;
                    at += 1;
                } else if c == '\\' && at + 1 < n && is_escapable_in_double(chars[at + 1]) {
                    word.push(chars[at + 1]);
                    at += 2;
                } else {
                    word.push(c);
                    at += 1;
                }
            },
        }
    }
    let ghost before = words.deep_view();
    if !word.as_str().is_empty() {
        words.push(word);
        assert(words.deep_view() =~= before + flush(word@));
    } else {
        assert(words.deep_view() =~= before + flush(word@));
    }
    words
}

fn is_escapable_in_double(c: char) -> (yes: bool)
    ensures
        yes == escapable_in_double(c),
{
    c == '\\' || c == '"' || c == '$' || c == '`'
}

/// Splits `cmd` into the program name and its arguments; `None` when the
/// line holds no word.
pub fn parse_command_line(cmd: &str) -> (parsed: Option<(String, Vec<String>)>)
    ensures
        parsed is None <==> tokens_of(cmd@).len() == 0,
        parsed matches Some(p) ==> p.0@ == tokens_of(cmd@)[0] && p.1.deep_view() == tokens_of(
            cmd@,
        ).skip(1),
{
    let mut parts = tokenize(cmd);
    if parts.len() == 0 {
        return None;
    }
    let ghost all = parts.deep_view();
    let program = parts.remove(0);
    assert(parts.deep_view() =~= all.skip(1));
    assert(program@ == all[0]);
    Some((program, parts))
}

/// A character with no special meaning to the lexer outside quotes.
pub open spec fn is_plain(c: char) -> bool {
    c != ' ' && c != '\'' && c != '"' && c != '\\'
}

/// A non-empty word made of plain characters only.
pub open spec fn is_plain_word(word: Seq<char>) -> bool {
    word.len() > 0 && forall|i: int| 0 <= i < word.len() ==> is_plain(#[trigger] word[i])
}

/// A line without quote characters and backslashes.
pub open spec fn is_unquoted(line: Seq<char>) -> bool {
    forall|i: int|
        0 <= i < line.len() ==> (#[trigger] line[i]) != '\'' && line[i] != '"' && line[i] != '\\'
}

/// Every word of `words` is a plain word.
pub open spec fn all_plain(words: Seq<Seq<char>>) -> bool {
    forall|i: int| 0 <= i < words.len() ==> is_plain_word(#[trigger] words[i])
}

proof fn lemma_lex_nonempty(line: Seq<char>, at: int, quote: Quote, word: Seq<char>)
    requires
        0 <= at,
    ensures
        all_nonempty(lex_from(line, at, quote, word)),
    decreases line.len() - at,
{
    if at < line.len() {
        let c = line[at];
        lemma_lex_nonempty(line, at + 1, Quote::Outside, Seq::empty());
        lemma_lex_nonempty(line, at + 1, Quote::Outside, word);
        lemma_lex_nonempty(line, at + 1, Quote::Single, word);
        lemma_lex_nonempty(line, at + 1, Quote::Double, word);
        lemma_lex_nonempty(line, at + 1, quote, word.push(c));
        if at + 1 < line.len() {
            lemma_lex_nonempty(line, at + 2, quote, word.push(line[at + 1]));
        }
        if quote == Quote::Outside && c == ' ' {
            let all = lex_from(line, at, quote, word);
            let later = lex_from(line, at + 1, Quote::Outside, Seq::empty());
            assert forall|i: int| 0 <= i < all.len() implies (#[trigger] all[i]).len() > 0 by {
                if i >= flush(word).len() {
                    assert(all[i] == later[i - flush(word).len()]);
                }
            }
        }
    }
}

/// No word of a line is empty.
pub proof fn lemma_tokens_nonempty(line: Seq<char>)
    ensures
        all_nonempty(tokens_of(line)),
{
    lemma_lex_nonempty(line, 0, Quote::Outside, Seq::empty());
}

proof fn lemma_lex_blank(line: Seq<char>, at: int)
    requires
        0 <= at,
        forall|i: int| at <= i < line.len() ==> line[i] == ' ',
    ensures
        lex_from(line, at, Quote::Outside, Seq::empty()) == Seq::<Seq<char>>::empty(),
    decreases line.len() - at,
{
    if at < line.len() {
        lemma_lex_blank(line, at + 1);
        let none = Seq::<Seq<char>>::empty();
        assert(flush(Seq::<char>::empty()) + none =~= none);
    }
}

/// An empty line, or one of spaces only, holds no word.
pub proof fn lemma_blank_line_has_no_words(line: Seq<char>)
    requires
        forall|i: int| 0 <= i < line.len() ==> line[i] == ' ',
    ensures
        tokens_of(line).len() == 0,
{
    lemma_lex_blank(line, 0);
}

proof fn lemma_lex_suffix(
    prefix: Seq<char>,
    rest: Seq<char>,
    at: int,
    quote: Quote,
    word: Seq<char>,
)
    requires
        0 <= at,
    ensures
        lex_from(prefix + rest, prefix.len() + at, quote, word) == lex_from(rest, at, quote, word),
    decreases rest.len() - at,
{
    let line = prefix + rest;
    let shifted = prefix.len() + at;
    if at < rest.len() {
        let c = rest[at];
        assert(line[shifted] == c);
        lemma_lex_suffix(prefix, rest, at + 1, Quote::Outside, Seq::empty());
        lemma_lex_suffix(prefix, rest, at + 1, Quote::Outside, word);
        lemma_lex_suffix(prefix, rest, at + 1, Quote::Single, word);
        lemma_lex_suffix(prefix, rest, at + 1, Quote::Double, word);
        lemma_lex_suffix(prefix, rest, at + 1, quote, word.push(c));
        if at + 1 < rest.len() {
            assert(line[shifted + 1] == rest[at + 1]);
            lemma_lex_suffix(prefix, rest, at + 2, quote, word.push(rest[at + 1]));
        }
    }
}

proof fn lemma_lex_plain_run(line: Seq<char>, at: int, count: int, word: Seq<char>)
    requires
        0 <= at,
        0 <= count,
        at + count <= line.len(),
        forall|i: int| at <= i < at + count ==> is_plain(#[trigger] line[i]),
    ensures
        lex_from(line, at, Quote::Outside, word) == lex_from(
            line,
            at + count,
            Quote::Outside,
            word + line.subrange(at, at + count),
        ),
    decreases count,
{
    if count == 0 {
        assert(word + line.subrange(at, at) =~= word);
    } else {
        assert(is_plain(line[at]));
        lemma_lex_plain_run(line, at + 1, count - 1, word.push(line[at]));
        assert(word.push(line[at]) + line.subrange(at + 1, at + count) =~= word + line.subrange(
            at,
            at + count,
        ));
    }
}

/// Plain words come back unchanged when they are joined with single spaces
/// and the result is split again.
pub proof fn lemma_join_then_split(words: Seq<Seq<char>>)
    requires
        all_plain(words),
    ensures
        tokens_of(join(words, " "@)) == words,
    decreases words.len(),
{
    reveal_strlit(" ");
    let space = " "@;
    assert(space =~= seq![' ']);
    let line = join(words, space);
    let none = Seq::<char>::empty();
    if words.len() == 0 {
        assert(tokens_of(line) =~= words);
    } else {
        let first = words[0];
        assert(is_plain_word(first));
        if words.len() == 1 {
            lemma_lex_plain_run(line, 0, first.len() as int, none);
            assert(none + line.subrange(0, first.len() as int) =~= first);
            assert(tokens_of(line) =~= words);
        } else {
            let rest = words.skip(1);
            lemma_join_first(words, space);
            let head = first + space;
            let tail = join(rest, space);
            assert(line =~= head + tail);
            assert forall|i: int| 0 <= i < first.len() implies is_plain(#[trigger] line[i]) by {
                assert(line[i] == first[i]);
            }
            lemma_lex_plain_run(line, 0, first.len() as int, none);
            assert(none + line.subrange(0, first.len() as int) =~= first);
            assert(line[first.len() as int] == ' ');
            lemma_lex_suffix(head, tail, 0, Quote::Outside, none);
            assert forall|i: int| 0 <= i < rest.len() implies is_plain_word(#[trigger] rest[i]) by {
                assert(rest[i] == words[i + 1]);
            }
            lemma_join_then_split(rest);
            assert(tokens_of(line) == flush(first) + lex_from(
                line,
                first.len() as int + 1,
                Quote::Outside,
                none,
            ));
            assert(tokens_of(line) =~= words);
        }
    }
}

proof fn lemma_lex_unquoted(line: Seq<char>, at: int, word: Seq<char>)
    requires
        0 <= at,
        is_unquoted(line),
        forall|i: int| 0 <= i < word.len() ==> is_plain(#[trigger] word[i]),
    ensures
        all_plain(lex_from(line, at, Quote::Outside, word)),
    decreases line.len() - at,
{
    if at < line.len() {
        let c = line[at];
        if c == ' ' {
            lemma_lex_unquoted(line, at + 1, Seq::empty());
            let all = lex_from(line, at, Quote::Outside, word);
            let later = lex_from(line, at + 1, Quote::Outside, Seq::empty());
            assert forall|i: int| 0 <= i < all.len() implies is_plain_word(#[trigger] all[i]) by {
                if i >= flush(word).len() {
                    assert(all[i] == later[i - flush(word).len()]);
                }
            }
        } else {
            lemma_lex_unquoted(line, at + 1, word.push(c));
        }
    }
}

/// The words of a line without quotes and backslashes are plain, so joining
/// them with single spaces gives a line with the same words in the same
/// order.
pub proof fn lemma_unquoted_line_round_trip(line: Seq<char>)
    requires
        is_unquoted(line),
    ensures
        all_plain(tokens_of(line)),
        tokens_of(join(tokens_of(line), " "@)) == tokens_of(line),
{
    lemma_lex_unquoted(line, 0, Seq::empty());
    lemma_join_then_split(tokens_of(line));
}

proof fn lemma_lex_unquoted_is_runs(line: Seq<char>, at: int, word: Seq<char>)
    requires
        0 <= at,
        is_unquoted(line),
    ensures
        lex_from(line, at, Quote::Outside, word) == runs_from(line, ' ', at, word),
    decreases line.len() - at,
{
    if at < line.len() {
        let c = line[at];
        if c == ' ' {
            lemma_lex_unquoted_is_runs(line, at + 1, Seq::empty());
        } else {
            lemma_lex_unquoted_is_runs(line, at + 1, word.push(c));
        }
    }
}

/// The words of a line without quotes and backslashes are its stretches
/// between spaces.
pub proof fn lemma_unquoted_line_is_cut_at_spaces(line: Seq<char>)
    requires
        is_unquoted(line),
    ensures
        tokens_of(line) == runs(line, ' '),
{
    lemma_lex_unquoted_is_runs(line, 0, Seq::empty());
}

proof fn lemma_lex_single_stretch(line: Seq<char>, at: int, count: int, word: Seq<char>)
    requires
        0 <= at,
        0 <= count,
        at + count <= line.len(),
        forall|i: int| at <= i < at + count ==> (#[trigger] line[i]) != '\'',
    ensures
        lex_from(line, at, Quote::Single, word) == lex_from(
            line,
            at + count,
            Quote::Single,
            word + line.subrange(at, at + count),
        ),
    decreases count,
{
    if count == 0 {
        assert(word + line.subrange(at, at) =~= word);
    } else {
        assert(line[at] != '\'');
        lemma_lex_single_stretch(line, at + 1, count - 1, word.push(line[at]));
        assert(word.push(line[at]) + line.subrange(at + 1, at + count) =~= word + line.subrange(
            at,
            at + count,
        ));
    }
}

/// Text between single quotes is one word exactly as it stands, whatever it
/// holds, and so is text behind a single quote that is never closed. Empty
/// text gives no word.
pub proof fn lemma_single_quoted_is_literal(text: Seq<char>)
    requires
        forall|i: int| 0 <= i < text.len() ==> (#[trigger] text[i]) != '\'',
    ensures
        tokens_of(seq!['\''] + text + seq!['\'']) == flush(text),
        tokens_of(seq!['\''] + text) == flush(text),
{
    let none = Seq::<char>::empty();
    let closed = seq!['\''] + text + seq!['\''];
    let open = seq!['\''] + text;
    let end = 1 + text.len() as int;
    assert forall|i: int| 1 <= i < 1 + text.len() implies (#[trigger] closed[i]) != '\'' by {
        assert(closed[i] == text[i - 1]);
    }
    assert forall|i: int| 1 <= i < 1 + text.len() implies (#[trigger] open[i]) != '\'' by {
        assert(open[i] == text[i - 1]);
    }
    lemma_lex_single_stretch(closed, 1, text.len() as int, none);
    lemma_lex_single_stretch(open, 1, text.len() as int, none);
    assert(none + closed.subrange(1, end) =~= text);
    assert(none + open.subrange(1, end) =~= text);
    assert(closed[end] == '\'');
    assert(lex_from(closed, end + 1, Quote::Outside, text) == flush(text));
    assert(lex_from(closed, end, Quote::Single, text) == flush(text));
    assert(lex_from(open, end, Quote::Single, text) == flush(text));
}

proof fn lemma_lex_double_stretch(line: Seq<char>, at: int, count: int, word: Seq<char>)
    requires
        0 <= at,
        0 <= count,
        at + count <= line.len(),
        forall|i: int| at <= i < at + count ==> (#[trigger] line[i]) != '"' && line[i] != '\\',
    ensures
        lex_from(line, at, Quote::Double, word) == lex_from(
            line,
            at + count,
            Quote::Double,
            word + line.subrange(at, at + count),
        ),
    decreases count,
{
    if count == 0 {
        assert(word + line.subrange(at, at) =~= word);
    } else {
        assert(line[at] != '"' && line[at] != '\\');
        lemma_lex_double_stretch(line, at + 1, count - 1, word.push(line[at]));
        assert(word.push(line[at]) + line.subrange(at + 1, at + count) =~= word + line.subrange(
            at,
            at + count,
        ));
    }
}

/// Text between double quotes that holds no double quote and no backslash is
/// one word exactly as it stands, closed or not.
pub proof fn lemma_double_quoted_is_literal(text: Seq<char>)
    requires
        forall|i: int| 0 <= i < text.len() ==> (#[trigger] text[i]) != '"' && text[i] != '\\',
    ensures
        tokens_of(seq!['"'] + text + seq!['"']) == flush(text),
        tokens_of(seq!['"'] + text) == flush(text),
{
    let none = Seq::<char>::empty();
    let closed = seq!['"'] + text + seq!['"'];
    let open = seq!['"'] + text;
    let end = 1 + text.len() as int;
    assert forall|i: int| 1 <= i < 1 + text.len() implies (#[trigger] closed[i]) != '"'
        && closed[i] != '\\' by {
        assert(closed[i] == text[i - 1]);
    }
    assert forall|i: int| 1 <= i < 1 + text.len() implies (#[trigger] open[i]) != '"' && open[i]
        != '\\' by {
        assert(open[i] == text[i - 1]);
    }
    lemma_lex_double_stretch(closed, 1, text.len() as int, none);
    lemma_lex_double_stretch(open, 1, text.len() as int, none);
    assert(none + closed.subrange(1, end) =~= text);
    assert(none + open.subrange(1, end) =~= text);
    assert(closed[end] == '"');
    assert(lex_from(closed, end + 1, Quote::Outside, text) == flush(text));
    assert(lex_from(closed, end, Quote::Double, text) == flush(text));
    assert(lex_from(open, end, Quote::Double, text) == flush(text));
}

} // verus!
