//! What holds across the operations on strings.

use crate::escape::{
    escaped, escaped_char, lemma_escaped_front, lemma_unescape_of_escape, unescaped,
};
use crate::graphemes::{grapheme_clusters, printable_ascii};
use crate::item::Item;
use crate::search::{
    contains_text, disjoint_matches, first_match, last_match, lemma_first_match,
    lemma_join_of_split, lemma_joined_front, lemma_last_match, lemma_pieces_nonempty,
    match_positions, matches_at, pieces,
};
use crate::strings::{
    effective_separator, element_texts, found_index, found_place, lemma_found_index, measured_part, occurrences, trimmed, trimmed_end, trimmed_start,
};
use crate::text::{joined, texts, white_space};
use vstd::prelude::*;

verus! {

/// The places of `pattern` in `text` from `from` on.
pub open spec fn positions_from(text: Seq<char>, pattern: Seq<char>, from: int) -> Set<int> {
    match_positions(text, pattern).filter(|i: int| from <= i)
}

/// A text holds a pattern at finitely many places.
proof fn lemma_positions_finite(text: Seq<char>, pattern: Seq<char>)
    ensures
        match_positions(text, pattern).finite(),
{
    let places = vstd::set_lib::set_int_range(0, text.len() as int + 1);
    vstd::set_lib::lemma_int_range(0, text.len() as int + 1);
    assert(match_positions(text, pattern).subset_of(places));
    vstd::set_lib::lemma_set_subset_finite(places, match_positions(text, pattern));
}

/// What a search without overlap counts from a place on is no more than the places there.
proof fn lemma_disjoint_from(text: Seq<char>, pattern: Seq<char>, from: int)
    requires
        0 < pattern.len(),
        0 <= from <= text.len(),
    ensures
        disjoint_matches(text.skip(from), pattern) <= positions_from(text, pattern, from).len(),
    decreases text.len() - from,
{
    let rest = text.skip(from);
    lemma_positions_finite(text, pattern);
    lemma_first_match(rest, pattern, 0);
    match first_match(rest, pattern, 0) {
        None => {},
        Some(i) => {
            let m = pattern.len() as int;
            let next = from + i + m;
            lemma_disjoint_from(text, pattern, next);
            assert(rest.skip(i + m) == text.skip(next));
            assert(rest.subrange(i, i + m) == text.subrange(from + i, from + i + m));
            let later = positions_from(text, pattern, next);
            assert(matches_at(text, pattern, from + i));
            assert(!later.contains(from + i));
            assert(later.insert(from + i).subset_of(positions_from(text, pattern, from)));
            vstd::set_lib::lemma_len_subset(
                later.insert(from + i),
                positions_from(text, pattern, from),
            );
        },
    }
}

/// A substring occurs at least as often with overlap as without.
pub proof fn lemma_overlapping_counts_more(text: Seq<char>, pattern: Seq<char>)
    ensures
        occurrences(text, pattern, false) <= occurrences(text, pattern, true),
{
    if pattern.len() > 0 {
        lemma_disjoint_from(text, pattern, 0);
        assert(text.skip(0) == text);
        assert(positions_from(text, pattern, 0) =~= match_positions(text, pattern));
    }
}

/// All searches agree on whether a substring occurs: it is contained exactly where it has an index,
/// from either end, and, unless it is empty, where it occurs once or more, with overlap or without. An
/// empty one is contained everywhere and is not counted.
pub proof fn lemma_searches_agree(text: Seq<char>, pattern: Seq<char>, from_end: bool, overlap: bool)
    ensures
        contains_text(text, pattern) <==> found_index(text, pattern, from_end) != -1,
        pattern.len() > 0 ==> (contains_text(text, pattern) <==> occurrences(text, pattern, overlap)
            >= 1),
        pattern.len() == 0 ==> contains_text(text, pattern) && occurrences(text, pattern, overlap)
            == 0,
{
    lemma_found_index(text, pattern, from_end);
    lemma_first_match(text, pattern, 0);
    lemma_positions_finite(text, pattern);
    lemma_overlapping_counts_more(text, pattern);
    if contains_text(text, pattern) {
        let i = choose|i: int| matches_at(text, pattern, i);
        assert(match_positions(text, pattern).contains(i));
    } else {
        assert(match_positions(text, pattern) =~= Set::empty());
    }
}

/// The first place of a substring is not behind its last.
pub proof fn lemma_first_before_last(text: Seq<char>, pattern: Seq<char>)
    ensures
        match (first_match(text, pattern, 0), last_match(text, pattern, text.len() - pattern.len())) {
            (Some(first), Some(last)) => first <= last,
            (None, None) => true,
            _ => false,
        },
{
    lemma_first_match(text, pattern, 0);
    lemma_last_match(text, pattern, text.len() - pattern.len());
}

/// A split gives one part more than the delimiter occurs without overlap.
pub proof fn lemma_split_counts(text: Seq<char>, delimiter: Seq<char>)
    requires
        0 < delimiter.len(),
    ensures
        pieces(text, delimiter).len() == occurrences(text, delimiter, false) + 1,
    decreases text.len(),
{
    lemma_first_match(text, delimiter, 0);
    match first_match(text, delimiter, 0) {
        None => {},
        Some(i) => {
            lemma_split_counts(text.skip(i + delimiter.len()), delimiter);
        },
    }
}

/// Replacing a substring with itself changes nothing, nor does replacing one that does not occur.
pub proof fn lemma_replace_keeps(text: Seq<char>, from: Seq<char>, to: Seq<char>)
    ensures
        joined(pieces(text, from), from) == text,
        !contains_text(text, from) ==> joined(pieces(text, from), to) == text,
{
    lemma_join_of_split(text, from);
    if !contains_text(text, from) {
        lemma_first_match(text, from, 0);
        if from.len() == 0 {
            assert(matches_at(text, from, 0)) by {
                assert(text.subrange(0, 0) == from);
            }
        }
    }
}

/// What is trimmed at the start is white space, all of it.
proof fn lemma_trimmed_start(text: Seq<char>)
    ensures
        ({
            let k = text.len() - trimmed_start(text).len();
            &&& 0 <= k
            &&& trimmed_start(text) == text.skip(k)
            &&& forall|i: int| 0 <= i < k ==> white_space(#[trigger] text[i])
            &&& k < text.len() ==> !white_space(text[k])
        }),
    decreases text.len(),
{
    if text.len() > 0 && white_space(text[0]) {
        let rest = text.skip(1);
        lemma_trimmed_start(rest);
        let k = text.len() - trimmed_start(text).len();
        assert(rest.skip(k - 1) == text.skip(k));
        assert forall|i: int| 0 <= i < k implies white_space(#[trigger] text[i]) by {
            if i > 0 {
                assert(rest[i - 1] == text[i]);
            }
        }
    } else {
        assert(text.skip(0) == text);
    }
}

/// What is trimmed at the end is white space, all of it.
proof fn lemma_trimmed_end(text: Seq<char>)
    ensures
        ({
            let k = trimmed_end(text).len() as int;
            &&& k <= text.len()
            &&& trimmed_end(text) == text.take(k)
            &&& forall|i: int| k <= i < text.len() ==> white_space(#[trigger] text[i])
            &&& 0 < k ==> !white_space(text[k - 1])
        }),
    decreases text.len(),
{
    if text.len() > 0 && white_space(text.last()) {
        let rest = text.drop_last();
        lemma_trimmed_end(rest);
        let k = trimmed_end(text).len() as int;
        assert forall|i: int| k <= i < text.len() implies white_space(#[trigger] text[i]) by {
            if i < text.len() - 1 {
                assert(rest[i] == text[i]);
            }
        }
    } else {
        assert(text.take(text.len() as int) == text);
    }
}

/// A trimmed text is a part of the text: only white space came before and behind it, at an end that
/// was not to be trimmed nothing did, and no white space is left at an end that was.
pub proof fn lemma_trim(text: Seq<char>, start: bool, end: bool)
    ensures
        exists|from: int, to: int|
            {
                &&& 0 <= from <= to <= text.len()
                &&& trimmed(text, start, end) == #[trigger] text.subrange(from, to)
                &&& forall|i: int|
                    0 <= i < from || to <= i < text.len() ==> white_space(#[trigger] text[i])
                &&& !start ==> from == 0
                &&& !end ==> to == text.len()
            },
        start && trimmed(text, start, end).len() > 0 ==> !white_space(trimmed(text, start, end)[0]),
        end && trimmed(text, start, end).len() > 0 ==> !white_space(
            trimmed(text, start, end).last(),
        ),
{
    let from = if start {
        text.len() - trimmed_start(text).len()
    } else {
        0
    };
    let tail = text.skip(from);
    lemma_trimmed_start(text);
    assert(text.skip(0) == text);
    lemma_trimmed_end(tail);
    let to = if end {
        from + trimmed_end(tail).len()
    } else {
        text.len() as int
    };
    assert(tail.take(to - from) == text.subrange(from, to));
    assert forall|i: int| to <= i < text.len() implies white_space(#[trigger] text[i]) by {
        assert(tail[i - from] == text[i]);
    }
    assert(trimmed(text, start, end) == text.subrange(from, to));
}

/// Trimming twice is trimming once.
pub proof fn lemma_trim_idempotent(text: Seq<char>, start: bool, end: bool)
    ensures
        trimmed(trimmed(text, start, end), start, end) == trimmed(text, start, end),
{
    lemma_trim(text, start, end);
}

/// Both ends can be trimmed in either order.
pub proof fn lemma_trim_order(text: Seq<char>)
    ensures
        trimmed_start(trimmed_end(text)) == trimmed_end(trimmed_start(text)),
{
    lemma_trimmed_start(text);
    lemma_trimmed_end(text);
    let a = text.len() - trimmed_start(text).len();
    let b = trimmed_end(text).len() as int;
    let front = text.take(b);
    let tail = text.skip(a);
    lemma_trimmed_start(front);
    lemma_trimmed_end(tail);
    let c = front.len() - trimmed_start(front).len();
    let d = trimmed_end(tail).len() as int;
    if a == text.len() {
        // All is white space, so nothing is left of either.
        if b > 0 {
            assert(white_space(text[b - 1]));
        }
        assert(b == 0);
    } else {
        if b <= a {
            assert(white_space(text[a]));
        }
        if c < a {
            assert(front[c] == text[c]);
        }
        if a < c {
            assert(front[a] == text[a]);
        }
        if a + d < b {
            assert(tail[b - 1 - a] == text[b - 1]);
        }
        if b < a + d {
            assert(tail[d - 1] == text[a + d - 1]);
        }
        assert(front.skip(c) == tail.take(d));
    }
}

/// The part of a text that a padding measures is the text's beginning up to the substring given, or
/// its end behind it, and that substring is not in between.
pub proof fn lemma_measured_part(text: Seq<char>, up_to: Seq<char>)
    requires
        0 < up_to.len(),
    ensures
        ({
            let before = measured_part(text, up_to, false);
            let behind = measured_part(text, up_to, true);
            if contains_text(text, up_to) {
                &&& text.take(before.len() as int) == before
                &&& matches_at(text, up_to, before.len() as int)
                &&& text.skip(text.len() - behind.len()) == behind
                &&& matches_at(text, up_to, text.len() - behind.len() - up_to.len())
                &&& !contains_text(before, up_to)
                &&& !contains_text(behind, up_to)
            } else {
                before == text && behind == text
            }
        }),
{
    let m = up_to.len() as int;
    lemma_first_match(text, up_to, 0);
    lemma_last_match(text, up_to, text.len() - m);
    let before = measured_part(text, up_to, false);
    let behind = measured_part(text, up_to, true);
    if contains_text(text, up_to) {
        let first = first_match(text, up_to, 0)->0;
        let last = last_match(text, up_to, text.len() - m)->0;
        assert forall|i: int| !matches_at(before, up_to, i) by {
            if matches_at(before, up_to, i) {
                assert(before.subrange(i, i + m) == text.subrange(i, i + m));
                assert(matches_at(text, up_to, i));
            }
        }
        assert forall|i: int| !matches_at(behind, up_to, i) by {
            if matches_at(behind, up_to, i) {
                let j = last + m + i;
                assert(behind.subrange(i, i + m) == text.subrange(j, j + m));
                assert(matches_at(text, up_to, j));
            }
        }
    }
}

/// Copies of a text with separators between them are as long as they are together; one copy is the
/// text itself, and none is nothing.
pub proof fn lemma_repeat(text: Seq<char>, count: nat, separator: Seq<char>)
    ensures
        ({
            let r = joined(Seq::new(count, |i: int| text), separator);
            &&& count == 0 ==> r.len() == 0
            &&& count == 1 ==> r == text
            &&& count > 0 ==> r.len() == count * text.len() + (count - 1) * separator.len()
        }),
    decreases count,
{
    let copies = Seq::new(count, |i: int| text);
    if count > 1 {
        let fewer = (count - 1) as nat;
        lemma_repeat(text, fewer, separator);
        assert(copies.drop_last() == Seq::new(fewer, |i: int| text));
        assert(count * text.len() == (count - 1) * text.len() + text.len()) by (nonlinear_arith);
        assert((count - 1) * separator.len() == (count - 2) * separator.len() + separator.len())
            by (nonlinear_arith);
    }
}

/// Lists put together are joined into what the one is, the separator, and what the other is; no parts
/// are joined into nothing, and one part into itself.
pub proof fn lemma_joined(first: Seq<Seq<char>>, second: Seq<Seq<char>>, separator: Seq<char>)
    ensures
        first.len() > 0 && second.len() > 0 ==> joined(first + second, separator) == joined(
            first,
            separator,
        ) + separator + joined(second, separator),
        first.len() == 0 ==> joined(first, separator).len() == 0,
        first.len() == 1 ==> joined(first, separator) == first[0],
    decreases second.len(),
{
    if first.len() > 0 && second.len() > 0 {
        let all = first + second;
        let last = second.last();
        assert(all.drop_last() == first + second.drop_last());
        if second.len() == 1 {
            assert(all.drop_last() == first);
        } else {
            let front = second.drop_last();
            lemma_joined(first, front, separator);
            assert(joined(first, separator) + separator + joined(front, separator) + separator
                + last == joined(first, separator) + separator + (joined(front, separator)
                + separator + last));
        }
    }
}

/// A pattern stands at a place exactly where all of its characters do, from there on, one after
/// another.
pub proof fn lemma_matches_character_by_character(text: Seq<char>, pattern: Seq<char>, i: int)
    ensures
        matches_at(text, pattern, i) <==> 0 <= i && i + pattern.len() <= text.len() && forall|k: int|
            0 <= k < pattern.len() ==> #[trigger] pattern[k] == text[i + k],
        match_positions(text, pattern).contains(i) <==> matches_at(text, pattern, i),
        matches_at(text, pattern, i) ==> contains_text(text, pattern),
        !contains_text(text, pattern) ==> !matches_at(text, pattern, i),
{
    let m = pattern.len() as int;
    if 0 <= i && i + m <= text.len() {
        let part = text.subrange(i, i + m);
        if matches_at(text, pattern, i) {
            assert forall|k: int| 0 <= k < m implies #[trigger] pattern[k] == text[i + k] by {
                assert(part[k] == text[i + k]);
            }
        }
        if forall|k: int| 0 <= k < m ==> #[trigger] pattern[k] == text[i + k] {
            assert(part == pattern);
        }
    }
}

/// A text is contained exactly in the texts that it is a part of.
pub proof fn lemma_contained_parts(before: Seq<char>, pattern: Seq<char>, behind: Seq<char>)
    ensures
        contains_text(before + pattern + behind, pattern),
        contains_text(before, pattern) ==> exists|i: int|
            0 <= i && i + pattern.len() <= before.len() && before == #[trigger] before.take(i)
                + pattern + before.skip(i + pattern.len()),
{
    let whole = before + pattern + behind;
    let at = before.len() as int;
    assert(whole.subrange(at, at + pattern.len()) == pattern);
    assert(matches_at(whole, pattern, at));
    if contains_text(before, pattern) {
        let i = choose|i: int| matches_at(before, pattern, i);
        assert(before == before.take(i) + before.subrange(i, i + pattern.len()) + before.skip(
            i + pattern.len(),
        ));
    }
}

/// With overlap, one more character adds an occurrence exactly where the text then ends with the
/// substring. An empty text has none.
pub proof fn lemma_overlapping_grows(text: Seq<char>, c: char, pattern: Seq<char>)
    requires
        0 < pattern.len(),
    ensures
        occurrences(Seq::empty(), pattern, true) == 0,
        ({
            let more = text.push(c);
            let ends = pattern.len() <= more.len() && more.skip(more.len() - pattern.len())
                == pattern;
            occurrences(more, pattern, true) == occurrences(text, pattern, true) + if ends {
                1int
            } else {
                0
            }
        }),
{
    let none = Seq::<char>::empty();
    assert(match_positions(none, pattern) =~= Set::empty());
    let more = text.push(c);
    let m = pattern.len() as int;
    let at = more.len() - m;
    let before = match_positions(text, pattern);
    let now = match_positions(more, pattern);
    lemma_positions_finite(text, pattern);
    lemma_positions_finite(more, pattern);
    assert forall|i: int| i != at implies now.contains(i) == before.contains(i) by {
        if 0 <= i && i + m <= text.len() {
            assert(more.subrange(i, i + m) == text.subrange(i, i + m));
        }
    }
    assert(!before.contains(at));
    if m <= more.len() {
        assert(more.skip(at) == more.subrange(at, at + m));
    }
    if now.contains(at) {
        assert(now =~= before.insert(at));
    } else {
        assert(now =~= before);
    }
}

/// Where a substring first stands behind `before`, a split cuts there and goes on behind it, a count
/// without overlap counts it and goes on behind it, and a replacement puts the other text in its place
/// and goes on behind it.
pub proof fn lemma_first_occurrence(
    before: Seq<char>,
    pattern: Seq<char>,
    rest: Seq<char>,
    other: Seq<char>,
)
    requires
        0 < pattern.len(),
        forall|i: int|
            0 <= i < before.len() ==> #[trigger] (before + pattern + rest).subrange(
                i,
                i + pattern.len(),
            ) != pattern,
    ensures
        ({
            let text = before + pattern + rest;
            &&& pieces(text, pattern) == seq![before] + pieces(rest, pattern)
            &&& occurrences(text, pattern, false) == 1 + occurrences(rest, pattern, false)
            &&& joined(pieces(text, pattern), other) == before + other + joined(
                pieces(rest, pattern),
                other,
            )
        }),
{
    let text = before + pattern + rest;
    let m = pattern.len() as int;
    let at = before.len() as int;
    lemma_first_match(text, pattern, 0);
    assert(text.subrange(at, at + m) == pattern);
    assert(matches_at(text, pattern, at));
    let found = first_match(text, pattern, 0)->0;
    if found < at {
        assert(text.subrange(found, found + m) != pattern);
    }
    assert(text.take(at) == before);
    assert(text.skip(at + m) == rest);
    assert(pieces(text, pattern) == seq![before] + pieces(rest, pattern));
    lemma_pieces_nonempty(rest, pattern);
    lemma_joined_front(before, pieces(rest, pattern), other);
}

/// A text without the substring is not split, has no occurrence and is not changed by a replacement.
pub proof fn lemma_no_occurrence(text: Seq<char>, pattern: Seq<char>, other: Seq<char>)
    requires
        0 < pattern.len(),
        forall|i: int|
            0 <= i && i + pattern.len() <= text.len() ==> #[trigger] text.subrange(
                i,
                i + pattern.len(),
            ) != pattern,
    ensures
        pieces(text, pattern) == seq![text],
        occurrences(text, pattern, false) == 0,
        occurrences(text, pattern, true) == 0,
        joined(pieces(text, pattern), other) == text,
        found_index(text, pattern, false) == -1,
        found_index(text, pattern, true) == -1,
{
    lemma_first_match(text, pattern, 0);
    lemma_last_match(text, pattern, text.len() - pattern.len());
    assert forall|i: int| !matches_at(text, pattern, i) by {
        if 0 <= i && i + pattern.len() <= text.len() {
            assert(text.subrange(i, i + pattern.len()) != pattern);
        }
    }
    assert(match_positions(text, pattern) =~= Set::empty());
}

/// An empty delimiter splits a text into its characters, with nothing before and behind them.
pub proof fn lemma_split_into_characters(text: Seq<char>)
    ensures
        ({
            let parts = pieces(text, Seq::empty());
            &&& parts.len() == text.len() + 2
            &&& parts[0].len() == 0
            &&& parts.last().len() == 0
            &&& forall|i: int|
                0 < i < parts.len() - 1 ==> (#[trigger] parts[i]).len() == 1 && parts[i][0]
                    == text[i - 1]
        }),
        occurrences(text, Seq::empty(), false) == 0,
        occurrences(text, Seq::empty(), true) == 0,
{
}

/// The index of a substring is how many characters come before its first place, or before its last
/// one from the end. An empty one is found at the start, or behind all characters from the end.
pub proof fn lemma_index_counts_characters(
    text: Seq<char>,
    pattern: Seq<char>,
    from_end: bool,
    place: int,
)
    requires
        0 < pattern.len(),
        0 <= place,
        place + pattern.len() <= text.len(),
        text.subrange(place, place + pattern.len()) == pattern,
        forall|j: int|
            0 <= j && j + pattern.len() <= text.len() && (if from_end {
                place < j
            } else {
                j < place
            }) ==> #[trigger] text.subrange(j, j + pattern.len()) != pattern,
    ensures
        found_index(text, pattern, from_end) == grapheme_clusters(text.take(place)).len(),
        found_place(text, pattern, from_end) == Some(place),
        found_index(text, Seq::empty(), false) == 0,
        found_index(text, Seq::empty(), true) == grapheme_clusters(text).len(),
{
    lemma_first_match(text, pattern, 0);
    lemma_last_match(text, pattern, text.len() - pattern.len());
    assert(matches_at(text, pattern, place));
    let first = first_match(text, pattern, 0)->0;
    let last = last_match(text, pattern, text.len() - pattern.len())->0;
    if from_end && place < last {
        assert(text.subrange(last, last + pattern.len()) != pattern);
    }
    if !from_end && first < place {
        assert(text.subrange(first, first + pattern.len()) != pattern);
    }
}

/// A separator that is not to be unescaped is used as it is given. One that is, is used with its escape
/// sequences converted, wherever in it they stand: what was escaped is used as it was before.
pub proof fn lemma_separator_is_unescaped(separator: Seq<char>)
    ensures
        effective_separator(separator, false) == separator,
        effective_separator(escaped(separator), true) == separator,
        effective_separator(separator, true) == unescaped(separator),
{
    lemma_unescape_of_escape(separator);
}

/// Unescaping works from the start on: a character other than a backslash stays, a backslash with one
/// of five characters becomes their control character, and one with any other stays with it. So does
/// one at the end.
pub proof fn lemma_unescaping(c: char, rest: Seq<char>)
    ensures
        unescaped(Seq::empty()).len() == 0,
        unescaped(seq!['\\']) == seq!['\\'],
        c != '\\' ==> unescaped(seq![c] + rest) == seq![c] + unescaped(rest),
        unescaped(seq!['\\', 'n'] + rest) == seq!['\n'] + unescaped(rest),
        unescaped(seq!['\\', 'r'] + rest) == seq!['\r'] + unescaped(rest),
        unescaped(seq!['\\', 't'] + rest) == seq!['\t'] + unescaped(rest),
        unescaped(seq!['\\', '0'] + rest) == seq!['\0'] + unescaped(rest),
        unescaped(seq!['\\', '\\'] + rest) == seq!['\\'] + unescaped(rest),
        c != 'n' && c != 'r' && c != 't' && c != '0' && c != '\\' ==> unescaped(
            seq!['\\', c] + rest,
        ) == seq!['\\', c] + unescaped(rest),
{
    assert((seq![c] + rest).skip(1) == rest);
    assert((seq!['\\', c] + rest).skip(2) == rest);
    assert((seq!['\\', 'n'] + rest).skip(2) == rest);
    assert((seq!['\\', 'r'] + rest).skip(2) == rest);
    assert((seq!['\\', 't'] + rest).skip(2) == rest);
    assert((seq!['\\', '0'] + rest).skip(2) == rest);
    assert((seq!['\\', '\\'] + rest).skip(2) == rest);
    assert(seq!['\\'].skip(1) == Seq::<char>::empty());
    assert(seq!['\\'] + Seq::<char>::empty() == seq!['\\']);
}

/// Escaping works character by character: five of them become a backslash and a letter, a digit or a
/// backslash, and every other stays.
pub proof fn lemma_escaping(c: char, rest: Seq<char>)
    ensures
        escaped(Seq::empty()).len() == 0,
        escaped(seq!['\n'] + rest) == seq!['\\', 'n'] + escaped(rest),
        escaped(seq!['\r'] + rest) == seq!['\\', 'r'] + escaped(rest),
        escaped(seq!['\t'] + rest) == seq!['\\', 't'] + escaped(rest),
        escaped(seq!['\0'] + rest) == seq!['\\', '0'] + escaped(rest),
        escaped(seq!['\\'] + rest) == seq!['\\', '\\'] + escaped(rest),
        c != '\n' && c != '\r' && c != '\t' && c != '\0' && c != '\\' ==> escaped(seq![c] + rest)
            == seq![c] + escaped(rest),
{
    assert forall|d: char| #[trigger] escaped(seq![d] + rest) == escaped_char(d) + escaped(rest) by {
        lemma_escaped_front(seq![d] + rest);
        assert((seq![d] + rest).skip(1) == rest);
    }
}

/// Without a substring given, all of a text is measured for its padding.
pub proof fn lemma_measured_whole(text: Seq<char>, from_end: bool)
    ensures
        measured_part(text, Seq::empty(), from_end) == text,
{
}

/// A list holds what each of its strings does, in their order.
pub proof fn lemma_texts<A>(strings: Seq<String>, items: Seq<Item<String, A>>, i: int)
    ensures
        texts(strings).len() == strings.len(),
        element_texts(items).len() == items.len(),
        0 <= i < strings.len() ==> texts(strings)[i] == strings[i]@,
        0 <= i < items.len() ==> element_texts(items)[i] == items[i].element@,
{
}

/// A text is printable ASCII exactly where none of its characters lies before the space or behind the
/// tilde.
pub proof fn lemma_printable_ascii(text: Seq<char>)
    ensures
        !printable_ascii(text) <==> exists|i: int|
            0 <= i < text.len() && (#[trigger] text[i] < ' ' || text[i] > '~'),
{
}

} // verus!
