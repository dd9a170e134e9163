//! Text as sequences of characters: conversions, comparison and joining.

use vstd::prelude::*;

verus! {

/// `String::push` appends the character `c` to the end of `s` and changes
/// nothing else.
pub assume_specification[ String::push ](s: &mut String, c: char)
    ensures
        final(s)@ == old(s)@.push(c),
;

/// The words of `words`, separated by `sep`.
pub open spec fn join<T>(words: Seq<Seq<T>>, sep: Seq<T>) -> Seq<T>
    decreases words.len(),
{
    if words.len() == 0 {
        Seq::empty()
    } else if words.len() == 1 {
        words[0]
    } else {
        join(words.drop_last(), sep) + sep + words.last()
    }
}

/// A pending piece as the list of finished pieces it adds: itself, or
/// nothing when it is empty.
pub open spec fn flush<T>(piece: Seq<T>) -> Seq<Seq<T>> {
    if piece.len() > 0 {
        seq![piece]
    } else {
        Seq::empty()
    }
}

/// The fields that the rest of `s` yields from position `at` with `piece`
/// pending, where each `sep` ends a field. Empty fields are kept.
pub open spec fn fields_from<T>(s: Seq<T>, sep: T, at: int, piece: Seq<T>) -> Seq<Seq<T>>
    decreases s.len() - at,
{
    if at < 0 || at >= s.len() {
        seq![piece]
    } else if s[at] == sep {
        seq![piece] + fields_from(s, sep, at + 1, Seq::empty())
    } else {
        fields_from(s, sep, at + 1, piece.push(s[at]))
    }
}

/// `s` cut at every `sep`: one field more than there are separators.
pub open spec fn fields<T>(s: Seq<T>, sep: T) -> Seq<Seq<T>> {
    fields_from(s, sep, 0, Seq::empty())
}

/// The non-empty runs that the rest of `s` yields from position `at` with
/// `piece` pending, where each `sep` ends a run.
pub open spec fn runs_from<T>(s: Seq<T>, sep: T, at: int, piece: Seq<T>) -> Seq<Seq<T>>
    decreases s.len() - at,
{
    if at < 0 || at >= s.len() {
        flush(piece)
    } else if s[at] == sep {
        flush(piece) + runs_from(s, sep, at + 1, Seq::empty())
    } else {
        runs_from(s, sep, at + 1, piece.push(s[at]))
    }
}

/// The maximal runs of `s` that hold no `sep`, in order; none is empty.
pub open spec fn runs<T>(s: Seq<T>, sep: T) -> Seq<Seq<T>> {
    runs_from(s, sep, 0, Seq::empty())
}

/// Every piece of `pieces` holds at least one element.
pub open spec fn all_nonempty<T>(pieces: Seq<Seq<T>>) -> bool {
    forall|i: int| 0 <= i < pieces.len() ==> (#[trigger] pieces[i]).len() > 0
}

/// Every piece of `pieces` is free of `sep`.
pub open spec fn all_free_of<T>(pieces: Seq<Seq<T>>, sep: T) -> bool {
    forall|i: int, j: int|
        0 <= i < pieces.len() && 0 <= j < pieces[i].len() ==> (#[trigger] pieces[i][j]) != sep
}

/// Whether `a` comes before `b`, or equals it, in the order of a dictionary:
/// at the first place where the two differ the character of `a` is the
/// smaller one, or `a` ends there.
pub open spec fn text_le(a: Seq<char>, b: Seq<char>) -> bool
    decreases a.len(),
{
    if a.len() == 0 {
        true
    } else if b.len() == 0 {
        false
    } else if a[0] != b[0] {
        a[0] < b[0]
    } else {
        text_le(a.skip(1), b.skip(1))
    }
}

/// The characters of `s`, in order.
pub fn chars_of(s: &str) -> (chars: Vec<char>)
    ensures
        chars@ == s@,
{
    let mut chars: Vec<char> = Vec::new();
    for c in it: s.chars()
        invariant
            chars@ == it.seq().take(it.index() as int),
            it.seq() == s@,
    {
        chars.push(c);
    }
    chars
}

/// The string made of `chars[from..to]`.
pub(crate) fn string_of(chars: &Vec<char>, from: usize, to: usize) -> (s: String)
    requires
        from <= to <= chars.len(),
    ensures
        s@ == chars@.subrange(from as int, to as int),
{
    let mut s = String::new();
    let mut at: usize = from;
    while at < to
        invariant
            from <= at <= to <= chars.len(),
            s@ == chars@.subrange(from as int, at as int),
        decreases to - at,
    {
        s.push(chars[at]);
        at += 1;
        assert(s@ =~= chars@.subrange(from as int, at as int));
    }
    s
}

/// Whether `chars` spells `s`.
pub fn spells(chars: &Vec<char>, s: &str) -> (same: bool)
    ensures
        same == (chars@ == s@),
{
    let other = chars_of(s);
    if chars.len() != other.len() {
        return false;
    }
    let mut at: usize = 0;
    while at < chars.len()
        invariant
            at <= chars.len(),
            chars.len() == other.len(),
            other@ == s@,
            chars@.take(at as int) == other@.take(at as int),
        decreases chars.len() - at,
    {
        if chars[at] != other[at] {
            return false;
        }
        at += 1;
        assert(chars@.take(at as int) =~= chars@.take(at - 1).push(chars@[at - 1]));
        assert(other@.take(at as int) =~= other@.take(at - 1).push(other@[at - 1]));
    }
    assert(chars@ =~= chars@.take(at as int));
    assert(other@ =~= other@.take(at as int));
    true
}

/// Whether two strings hold the same characters.
pub fn same_text(a: &str, b: &str) -> (same: bool)
    ensures
        same == (a@ == b@),
{
    let chars = chars_of(a);
    spells(&chars, b)
}

/// Whether `s` begins with `prefix`.
pub fn starts_with(s: &str, prefix: &str) -> (yes: bool)
    ensures
        yes == prefix@.is_prefix_of(s@),
{
    let x = chars_of(s);
    let p = chars_of(prefix);
    if p.len() > x.len() {
        return false;
    }
    let mut at: usize = 0;
    while at < p.len()
        invariant
            at <= p.len() <= x.len(),
            x@ == s@,
            p@ == prefix@,
            x@.take(at as int) == p@.take(at as int),
        decreases p.len() - at,
    {
        if x[at] != p[at] {
            return false;
        }
        at += 1;
        assert(x@.take(at as int) =~= x@.take(at - 1).push(x@[at - 1]));
        assert(p@.take(at as int) =~= p@.take(at - 1).push(p@[at - 1]));
    }
    assert(p@ =~= p@.take(at as int));
    assert(p@ =~= x@.subrange(0, p@.len() as int));
    true
}

/// Whether `a` comes before `b`, or equals it, in the order of a dictionary.
pub fn text_precedes(a: &str, b: &str) -> (yes: bool)
    ensures
        yes == text_le(a@, b@),
{
    let x = chars_of(a);
    let y = chars_of(b);
    let mut at: usize = 0;
    assert(x@.skip(0) =~= x@);
    assert(y@.skip(0) =~= y@);
    while at < x.len() && at < y.len()
        invariant
            at <= x.len(),
            at <= y.len(),
            x@ == a@,
            y@ == b@,
            text_le(a@, b@) == text_le(x@.skip(at as int), y@.skip(at as int)),
        decreases x.len() - at,
    {
        assert(x@.skip(at as int)[0] == x@[at as int]);
        assert(y@.skip(at as int)[0] == y@[at as int]);
        if x[at] != y[at] {
            return x[at] < y[at];
        }
        assert(x@.skip(at as int).skip(1) =~= x@.skip(at + 1));
        assert(y@.skip(at as int).skip(1) =~= y@.skip(at + 1));
        at += 1;
    }
    at == x.len()
}

/// The words of `words`, separated by `sep`, as one string.
pub fn join_words(words: &Vec<String>, sep: &str) -> (joined: String)
    ensures
        joined@ == join(words.deep_view(), sep@),
{
    let mut joined = String::new();
    let mut at: usize = 0;
    let ghost all = words.deep_view();
    while at < words.len()
        invariant
            at <= words.len(),
            all == words.deep_view(),
            joined@ == join(all.take(at as int), sep@),
        decreases words.len() - at,
    {
        proof {
            assert(all.take(at + 1).drop_last() =~= all.take(at as int));
            assert(all.take(at + 1).last() == words[at as int]@);
        }
        if at > 0 {
            joined.append(sep);
        }
        joined.append(words[at].as_str());
        at += 1;
        assert(joined@ =~= join(all.take(at as int), sep@));
    }
    assert(all.take(at as int) =~= all);
    joined
}

/// Cuts `s` at every `sep`, keeping empty fields.
pub fn split_fields(s: &str, sep: char) -> (parts: Vec<String>)
    ensures
        parts.deep_view() == fields(s@, sep),
{
    let chars = chars_of(s);
    let mut parts: Vec<String> = Vec::new();
    let mut piece = String::new();
    let mut at: usize = 0;
    assert(parts.deep_view() + fields(s@, sep) =~= fields(s@, sep));
    while at < chars.len()
        invariant
            at <= chars.len(),
            chars@ == s@,
            fields(s@, sep) == parts.deep_view() + fields_from(s@, sep, at as int, piece@),
        decreases chars.len() - at,
    {
        let c = chars[at];
        if c == sep {
            let ghost before = parts.deep_view();
            let ghost finished = piece@;
            let ghost rest = fields_from(s@, sep, at + 1, Seq::empty());
            parts.push(piece);
            piece = String::new();
            assert(parts.deep_view() =~= before.push(finished));
            assert(before.push(finished) + rest =~= before + (seq![finished] + rest));
        } else {
            piece.push(c);
        }
        at += 1;
    }
    let ghost before = parts.deep_view();
    let ghost finished = piece@;
    parts.push(piece);
    assert(parts.deep_view() =~= before + seq![finished]);
    parts
}

/// The non-empty runs of `s` between separators `sep`.
pub fn split_runs(s: &str, sep: char) -> (parts: Vec<String>)
    ensures
        parts.deep_view() == runs(s@, sep),
{
    let chars = chars_of(s);
    let mut parts: Vec<String> = Vec::new();
    let mut piece = String::new();
    let mut at: usize = 0;
    assert(parts.deep_view() + runs(s@, sep) =~= runs(s@, sep));
    while at < chars.len()
        invariant
            at <= chars.len(),
            chars@ == s@,
            runs(s@, sep) == parts.deep_view() + runs_from(s@, sep, at as int, piece@),
        decreases chars.len() - at,
    {
        let c = chars[at];
        if c == sep {
            let ghost before = parts.deep_view();
            let ghost rest = runs_from(s@, sep, at + 1, Seq::empty());
            if !piece.as_str().is_empty() {
                let ghost finished = piece@;
                parts.push(piece);
                piece = String::new();
                assert(parts.deep_view() =~= before.push(finished));
                assert(before.push(finished) + rest =~= before + (flush(finished) + rest));
            } else {
                assert(piece@ =~= Seq::<char>::empty());
                assert(before + rest =~= before + (flush(piece@) + rest));
            }
        } else {
            piece.push(c);
        }
        at += 1;
    }
    let ghost before = parts.deep_view();
    if !piece.as_str().is_empty() {
        parts.push(piece);
        assert(parts.deep_view() =~= before + flush(piece@));
    } else {
        assert(parts.deep_view() =~= before + flush(piece@));
    }
    parts
}

/// `join` read from the front: the first word, the separator, then the rest.
pub proof fn lemma_join_first<T>(words: Seq<Seq<T>>, sep: Seq<T>)
    requires
        words.len() >= 2,
    ensures
        join(words, sep) == words[0] + sep + join(words.skip(1), sep),
    decreases words.len(),
{
    let rest = words.skip(1);
    if words.len() == 2 {
        assert(words.drop_last() =~= seq![words[0]]);
        assert(join(words.drop_last(), sep) == words[0]);
        assert(rest =~= seq![words[1]]);
        assert(join(rest, sep) == words[1]);
    } else {
        lemma_join_first(words.drop_last(), sep);
        assert(words.drop_last().skip(1) =~= rest.drop_last());
        assert(rest.last() == words.last());
        assert(join(words, sep) =~= words[0] + sep + (join(rest.drop_last(), sep) + sep
            + rest.last()));
    }
}

/// Scanning for runs depends only on what is still ahead: a prefix that was
/// already passed can be cut off.
pub proof fn lemma_runs_suffix<T>(prefix: Seq<T>, rest: Seq<T>, sep: T, at: int, piece: Seq<T>)
    requires
        0 <= at,
    ensures
        runs_from(prefix + rest, sep, prefix.len() + at, piece) == runs_from(rest, sep, at, piece),
    decreases rest.len() - at,
{
    if at < rest.len() {
        assert((prefix + rest)[prefix.len() + at] == rest[at]);
        lemma_runs_suffix(prefix, rest, sep, at + 1, Seq::empty());
        lemma_runs_suffix(prefix, rest, sep, at + 1, piece.push(rest[at]));
    }
}

/// A stretch without separators goes into the pending piece as it is.
pub proof fn lemma_runs_stretch<T>(s: Seq<T>, sep: T, at: int, count: int, piece: Seq<T>)
    requires
        0 <= at,
        0 <= count,
        at + count <= s.len(),
        forall|i: int| at <= i < at + count ==> (#[trigger] s[i]) != sep,
    ensures
        runs_from(s, sep, at, piece) == runs_from(
            s,
            sep,
            at + count,
            piece + s.subrange(at, at + count),
        ),
    decreases count,
{
    if count == 0 {
        assert(piece + s.subrange(at, at) =~= piece);
    } else {
        assert(s[at] != sep);
        lemma_runs_stretch(s, sep, at + 1, count - 1, piece.push(s[at]));
        assert(piece.push(s[at]) + s.subrange(at + 1, at + count) =~= piece + s.subrange(
            at,
            at + count,
        ));
    }
}

/// A non-empty piece without separators, a separator, then more: the runs
/// are the piece and the runs of what follows.
pub proof fn lemma_runs_first<T>(piece: Seq<T>, sep: T, rest: Seq<T>)
    requires
        piece.len() > 0,
        forall|i: int| 0 <= i < piece.len() ==> (#[trigger] piece[i]) != sep,
    ensures
        runs(piece + seq![sep] + rest, sep) == seq![piece] + runs(rest, sep),
{
    let head = piece + seq![sep];
    let s = head + rest;
    let none = Seq::<T>::empty();
    assert forall|i: int| 0 <= i < piece.len() implies (#[trigger] s[i]) != sep by {
        assert(s[i] == piece[i]);
    }
    lemma_runs_stretch(s, sep, 0, piece.len() as int, none);
    assert(none + s.subrange(0, piece.len() as int) =~= piece);
    assert(s[piece.len() as int] == sep);
    lemma_runs_suffix(head, rest, sep, 0, none);
    assert(runs(s, sep) == flush(piece) + runs_from(s, sep, piece.len() as int + 1, none));
}

proof fn lemma_fields_from_join<T>(s: Seq<T>, sep: T, at: int, piece: Seq<T>)
    requires
        0 <= at <= s.len(),
        forall|j: int| 0 <= j < piece.len() ==> (#[trigger] piece[j]) != sep,
    ensures
        join(fields_from(s, sep, at, piece), seq![sep]) == piece + s.skip(at),
        fields_from(s, sep, at, piece).len() >= 1,
        all_free_of(fields_from(s, sep, at, piece), sep),
    decreases s.len() - at,
{
    let all = fields_from(s, sep, at, piece);
    if at < s.len() {
        if s[at] == sep {
            let later = fields_from(s, sep, at + 1, Seq::empty());
            lemma_fields_from_join(s, sep, at + 1, Seq::empty());
            assert(all =~= seq![piece] + later);
            lemma_join_first(all, seq![sep]);
            assert(all.skip(1) =~= later);
            assert(piece + seq![sep] + (Seq::<T>::empty() + s.skip(at + 1)) =~= piece + s.skip(at));
            assert forall|i: int, j: int| 0 <= i < all.len() && 0 <= j < all[i].len() implies (
            #[trigger] all[i][j]) != sep by {
                if i >= 1 {
                    assert(all[i] == later[i - 1]);
                    assert(later[i - 1][j] != sep);
                }
            }
        } else {
            lemma_fields_from_join(s, sep, at + 1, piece.push(s[at]));
            assert(piece.push(s[at]) + s.skip(at + 1) =~= piece + s.skip(at));
        }
    } else {
        assert(piece + s.skip(at) =~= piece);
    }
}

/// The fields of `s` hold no separator, and joined by the separator they
/// give `s` again.
pub proof fn lemma_fields_join<T>(s: Seq<T>, sep: T)
    ensures
        join(fields(s, sep), seq![sep]) == s,
        fields(s, sep).len() >= 1,
        all_free_of(fields(s, sep), sep),
{
    lemma_fields_from_join(s, sep, 0, Seq::empty());
    assert(Seq::<T>::empty() + s.skip(0) =~= s);
}

proof fn lemma_runs_from_clean<T>(s: Seq<T>, sep: T, at: int, piece: Seq<T>)
    requires
        0 <= at,
        forall|j: int| 0 <= j < piece.len() ==> (#[trigger] piece[j]) != sep,
    ensures
        all_nonempty(runs_from(s, sep, at, piece)),
        all_free_of(runs_from(s, sep, at, piece), sep),
    decreases s.len() - at,
{
    if at < s.len() {
        if s[at] == sep {
            lemma_runs_from_clean(s, sep, at + 1, Seq::empty());
            let all = runs_from(s, sep, at, piece);
            let later = runs_from(s, sep, at + 1, Seq::empty());
            let shift = flush(piece).len() as int;
            assert forall|i: int| 0 <= i < all.len() implies (#[trigger] all[i]).len() > 0 by {
                if i >= shift {
                    assert(all[i] == later[i - shift]);
                }
            }
            assert forall|i: int, j: int| 0 <= i < all.len() && 0 <= j < all[i].len() implies (
            #[trigger] all[i][j]) != sep by {
                if i >= shift {
                    assert(all[i] == later[i - shift]);
                    assert(later[i - shift][j] != sep);
                } else {
                    assert(all[i] == piece);
                }
            }
        } else {
            lemma_runs_from_clean(s, sep, at + 1, piece.push(s[at]));
        }
    }
}

/// No run is empty, and none holds the separator.
pub proof fn lemma_runs_are_clean<T>(s: Seq<T>, sep: T)
    ensures
        all_nonempty(runs(s, sep)),
        all_free_of(runs(s, sep), sep),
{
    lemma_runs_from_clean(s, sep, 0, Seq::empty());
}

/// A non-empty sequence without separators is its own single run.
pub proof fn lemma_runs_of_one<T>(s: Seq<T>, sep: T)
    requires
        s.len() > 0,
        forall|i: int| 0 <= i < s.len() ==> (#[trigger] s[i]) != sep,
    ensures
        runs(s, sep) == seq![s],
{
    lemma_runs_stretch(s, sep, 0, s.len() as int, Seq::empty());
    assert(Seq::<T>::empty() + s.subrange(0, s.len() as int) =~= s);
}

/// Of two texts one comes before the other, or they are equal.
pub proof fn lemma_text_le_total(a: Seq<char>, b: Seq<char>)
    ensures
        text_le(a, b) || text_le(b, a),
    decreases a.len(),
{
    if a.len() > 0 && b.len() > 0 && a[0] == b[0] {
        lemma_text_le_total(a.skip(1), b.skip(1));
    }
}

/// The order of texts is transitive.
pub proof fn lemma_text_le_transitive(a: Seq<char>, b: Seq<char>, c: Seq<char>)
    requires
        text_le(a, b),
        text_le(b, c),
    ensures
        text_le(a, c),
    decreases a.len(),
{
    if a.len() > 0 && b.len() > 0 && c.len() > 0 && a[0] == b[0] && b[0] == c[0] {
        lemma_text_le_transitive(a.skip(1), b.skip(1), c.skip(1));
    }
}

/// Two texts that come before each other are the same text.
pub proof fn lemma_text_le_antisymmetric(a: Seq<char>, b: Seq<char>)
    requires
        text_le(a, b),
        text_le(b, a),
    ensures
        a == b,
    decreases a.len(),
{
    if a.len() > 0 && b.len() > 0 {
        lemma_text_le_antisymmetric(a.skip(1), b.skip(1));
        assert(a =~= seq![a[0]] + a.skip(1));
        assert(b =~= seq![b[0]] + b.skip(1));
    } else {
        assert(a =~= b);
    }
}

/// The order of texts is a total order.
pub proof fn lemma_text_le_is_total_order()
    ensures
        vstd::relations::total_ordering(|a: Seq<char>, b: Seq<char>| text_le(a, b)),
{
    let le = |a: Seq<char>, b: Seq<char>| text_le(a, b);
    assert forall|a: Seq<char>| #[trigger] le(a, a) by {
        lemma_text_le_total(a, a);
    }
    assert forall|a: Seq<char>, b: Seq<char>| #[trigger] le(a, b) && #[trigger] le(b, a) implies a
        == b by {
        lemma_text_le_antisymmetric(a, b);
    }
    assert forall|a: Seq<char>, b: Seq<char>, c: Seq<char>| #[trigger]
        le(a, b) && #[trigger] le(b, c) implies le(a, c) by {
        lemma_text_le_transitive(a, b, c);
    }
    assert forall|a: Seq<char>, b: Seq<char>| #[trigger] le(a, b) || #[trigger] le(b, a) by {
        lemma_text_le_total(a, b);
    }
}

} // verus!
