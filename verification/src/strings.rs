//! The operations on strings. Each takes the items it reads and gives back an item that carries the
//! attributes of the string it works on.

use crate::escape::{escape_string, escaped, unescape_string, unescaped};
use crate::graphemes::{
    grapheme_clusters, graphemes, lemma_cluster_count, lemma_flatten_chars, lemma_repeated_chars,
    lemma_reverse, lemma_slice_of_chars, lemma_slices, lemma_truncated_chars, pad_clusters, padded, printable_ascii, reverse_clusters, slice_clusters,
    slice_place, slice_text, truncate_clusters, truncated, SignedIndex,
};
use crate::item::Item;
use crate::kmp::count_overlapping;
use crate::search::{
    contains_text, count_disjoint, disjoint_matches, find_from, find_last, first_match, last_match,
    lemma_first_match, lemma_last_match, match_positions, matches_at, matches_here, pieces,
    split_pieces,
};
use crate::text::{chars_of, is_white_space, join, joined, string_of, texts, white_space};
use vstd::prelude::*;

verus! {

/// What the strings of a list of items hold.
pub open spec fn element_texts<A>(items: Seq<Item<String, A>>) -> Seq<Seq<char>> {
    items.map_values(|item: Item<String, A>| item.element@)
}

/// A separator as it is used: with its escape sequences converted, where that is asked for.
pub open spec fn effective_separator(separator: Seq<char>, escaping: bool) -> Seq<char> {
    if escaping {
        unescaped(separator)
    } else {
        separator
    }
}

/// `text` without the white space it starts with.
pub open spec fn trimmed_start(text: Seq<char>) -> Seq<char>
    decreases text.len(),
{
    if text.len() > 0 && white_space(text[0]) {
        trimmed_start(text.skip(1))
    } else {
        text
    }
}

/// `text` without the white space it ends with.
pub open spec fn trimmed_end(text: Seq<char>) -> Seq<char>
    decreases text.len(),
{
    if text.len() > 0 && white_space(text.last()) {
        trimmed_end(text.drop_last())
    } else {
        text
    }
}

/// `text` without the white space at the ends that are asked for.
pub open spec fn trimmed(text: Seq<char>, start: bool, end: bool) -> Seq<char> {
    let tail = if start {
        trimmed_start(text)
    } else {
        text
    };
    if end {
        trimmed_end(tail)
    } else {
        tail
    }
}

/// Constructs a string value which may be set to any plain text.
pub fn string_value<A>(string: Item<String, A>) -> (r: Item<String, A>)
    ensures
        r == string,
{
    string
}

/// Type-asserts a value to be a string.
pub fn as_string<A>(value: Item<String, A>) -> (r: Item<String, A>)
    ensures
        r == value,
{
    value
}

/// Joins two strings together.
pub fn string_concatenate<A>(first: Item<String, A>, second: Item<String, A>) -> (r: Item<
    String,
    A,
>)
    ensures
        r.element@ == first.element@ + second.element@,
        r.attributes == first.attributes,
{
    let (text, attributes) = first.into_parts();
    let mut result = text;
    result.append(second.element.as_str());
    Item::from_parts(result, attributes)
}

/// Replaces all occurrences of `from` with `to` in the input string.
pub fn string_replace<A>(
    string: Item<String, A>,
    from: Item<String, A>,
    to: Item<String, A>,
) -> (r: Item<String, A>)
    ensures
        r.element@ == joined(pieces(string.element@, from.element@), to.element@),
        r.attributes == string.attributes,
{
    let (text, attributes) = string.into_parts();
    let chars = chars_of(text.as_str());
    let pattern = chars_of(from.element.as_str());
    let result = join(&split_pieces(&chars, &pattern), to.element.as_str());
    Item::from_parts(result, attributes)
}

/// Extracts a substring from the input string, starting at `start` and ending before `end`.
///
/// Negative indices count from the end of the string. If the index of `start` equals or exceeds
/// `end`, the result is an empty string.
pub fn string_slice<A>(
    string: Item<String, A>,
    start: Item<SignedIndex, A>,
    end: Item<SignedIndex, A>,
) -> (r: Item<String, A>)
    ensures
        r.element@ == slice_text(grapheme_clusters(string.element@), start.element, end.element),
        start.element is Zero && (end.element matches SignedIndex::Positive(size) && size
            >= string.element@.len()) ==> r.element@ == string.element@,
        printable_ascii(string.element@) ==> r.element@ == ({
            let from = slice_place(string.element@.len(), start.element) as int;
            let to = slice_place(string.element@.len(), end.element) as int;
            if from >= to {
                Seq::empty()
            } else {
                string.element@.subrange(from, to)
            }
        }),
        r.attributes == string.attributes,
{
    let (text, attributes) = string.into_parts();
    let clusters = graphemes(text.as_str());
    proof {
        lemma_cluster_count(texts(clusters@));
        lemma_slice_of_chars(text@, start.element, end.element);
        if let SignedIndex::Positive(size) = end.element {
            if size >= text@.len() {
                lemma_slices(texts(clusters@), 0, size);
            }
        }
    }
    let result = slice_clusters(&clusters, start.element, end.element);
    Item::from_parts(result, attributes)
}

/// Clips the string to a maximum character length, appending a suffix (like "…") when truncation
/// occurs. Strings already within the limit are not modified.
///
/// The length of the suffix counts towards the character budget.
pub fn string_truncate<A>(
    string: Item<String, A>,
    length: Item<u32, A>,
    suffix: Item<String, A>,
) -> (r: Item<String, A>)
    ensures
        r.element@ == truncated(
            string.element@,
            grapheme_clusters(string.element@),
            grapheme_clusters(suffix.element@),
            length.element as nat,
        ),
        printable_ascii(string.element@) && printable_ascii(suffix.element@) ==> r.element@ == ({
            let limit = length.element as int;
            let shown = if suffix.element@.len() <= limit {
                suffix.element@.len() as int
            } else {
                limit
            };
            if string.element@.len() <= limit {
                string.element@
            } else {
                string.element@.take(limit - shown) + suffix.element@.take(shown)
            }
        }),
        r.attributes == string.attributes,
{
    let (text, attributes) = string.into_parts();
    let clusters = graphemes(text.as_str());
    let suffix_clusters = graphemes(suffix.element.as_str());
    proof {
        if printable_ascii(text@) && printable_ascii(suffix.element@) {
            lemma_truncated_chars(text@, suffix.element@, length.element as nat);
        }
    }
    let result = truncate_clusters(text, &clusters, &suffix_clusters, length.element as usize);
    Item::from_parts(result, attributes)
}

/// The first place of `chars` that holds no white space, or the end.
fn skip_white_space(chars: &Vec<char>) -> (r: usize)
    ensures
        r <= chars@.len(),
        chars@.skip(r as int) == trimmed_start(chars@),
{
    let n = chars.len();
    let mut i: usize = 0;
    assert(chars@.skip(0) == chars@);
    while i < n && is_white_space(chars[i])
        invariant
            n == chars@.len(),
            i <= n,
            trimmed_start(chars@.skip(i as int)) == trimmed_start(chars@),
        decreases n - i,
    {
        assert(chars@.skip(i as int).skip(1) == chars@.skip(i + 1));
        i = i + 1;
    }
    i
}

/// The place of `chars`, not before `from`, at which the white space at the end begins.
fn white_space_end(chars: &Vec<char>, from: usize) -> (r: usize)
    requires
        from <= chars@.len(),
    ensures
        from <= r <= chars@.len(),
        chars@.subrange(from as int, r as int) == trimmed_end(chars@.skip(from as int)),
{
    let mut end = chars.len();
    assert(chars@.subrange(from as int, end as int) == chars@.skip(from as int));
    while from < end && is_white_space(chars[end - 1])
        invariant
            from <= end <= chars@.len(),
            trimmed_end(chars@.subrange(from as int, end as int)) == trimmed_end(
                chars@.skip(from as int),
            ),
        decreases end,
    {
        assert(chars@.subrange(from as int, end as int).drop_last() == chars@.subrange(
            from as int,
            end - 1,
        ));
        end = end - 1;
    }
    end
}

/// The text without the white space at the ends that are asked for.
pub fn trim_text(text: &str, start: bool, end: bool) -> (r: String)
    ensures
        r@ == trimmed(text@, start, end),
{
    let chars = chars_of(text);
    let from = if start {
        skip_white_space(&chars)
    } else {
        0
    };
    assert(chars@.skip(0) == chars@);
    let to = if end {
        white_space_end(&chars, from)
    } else {
        chars.len()
    };
    assert(chars@.subrange(from as int, chars@.len() as int) == chars@.skip(from as int));
    string_of(&chars, from, to)
}

/// Removes leading and/or trailing whitespace from a string. Common whitespace characters include
/// spaces, tabs, and newlines.
pub fn string_trim<A>(string: Item<String, A>, start: Item<bool, A>, end: Item<bool, A>) -> (r:
    Item<String, A>)
    ensures
        r.element@ == trimmed(string.element@, start.element, end.element),
        r.attributes == string.attributes,
{
    if !start.element && !end.element {
        return string;
    }
    let (text, attributes) = string.into_parts();
    let result = trim_text(text.as_str(), start.element, end.element);
    Item::from_parts(result, attributes)
}

/// Converts between literal escape sequences and their corresponding control characters within a
/// string.
///
/// Unescape: `\n` (newline), `\r` (carriage return), `\t` (tab), `\0` (null), and `\\` (backslash)
/// are converted into the actual special characters. Escape: the actual special characters are
/// converted back into their escape sequence representations.
pub fn string_escape<A>(string: Item<String, A>, unescape: Item<bool, A>) -> (r: Item<String, A>)
    ensures
        r.element@ == if unescape.element {
            unescaped(string.element@)
        } else {
            escaped(string.element@)
        },
        r.attributes == string.attributes,
{
    let (text, attributes) = string.into_parts();
    let result = if unescape.element {
        unescape_string(text)
    } else {
        escape_string(text)
    };
    Item::from_parts(result, attributes)
}

/// Reverses the sequence of characters making up the string so it reads back-to-front.
pub fn string_reverse<A>(string: Item<String, A>) -> (r: Item<String, A>)
    ensures
        r.element@ == grapheme_clusters(string.element@).reverse().flatten(),
        r.element@.len() == string.element@.len(),
        printable_ascii(string.element@) ==> r.element@ == string.element@.reverse(),
        r.attributes == string.attributes,
{
    let (text, attributes) = string.into_parts();
    let clusters = graphemes(text.as_str());
    proof {
        lemma_reverse(texts(clusters@));
        if printable_ascii(text@) {
            let single = |c: char| seq![c];
            assert(texts(clusters@).reverse() == text@.reverse().map_values(single));
            lemma_flatten_chars(text@.reverse());
        }
    }
    let result = reverse_clusters(&clusters);
    Item::from_parts(result, attributes)
}

/// A separator as it is used: with its escape sequences converted, where that is asked for.
fn prepare_separator(separator: String, escaping: bool) -> (r: String)
    ensures
        r@ == effective_separator(separator@, escaping),
{
    if escaping {
        unescape_string(separator)
    } else {
        separator
    }
}

/// Repeats the string a given number of times, optionally with a separator between each repetition.
pub fn string_repeat<A>(
    string: Item<String, A>,
    count: Item<u32, A>,
    separator: Item<String, A>,
    separator_escaping: Item<bool, A>,
) -> (r: Item<String, A>)
    ensures
        r.element@ == joined(
            Seq::new(count.element as nat, |i: int| string.element@),
            effective_separator(separator.element@, separator_escaping.element),
        ),
        r.attributes == string.attributes,
{
    let (text, attributes) = string.into_parts();
    let separator = prepare_separator(separator.element, separator_escaping.element);
    let ghost copies = Seq::new(count.element as nat, |i: int| text@);
    let mut result = String::new();
    for i in 0..count.element
        invariant
            copies == Seq::new(count.element as nat, |i: int| text@),
            result@ == joined(copies.take(i as int), separator@),
    {
        if i > 0 {
            result.append(separator.as_str());
        }
        result.append(text.as_str());
        proof {
            assert(copies.take(i + 1).drop_last() == copies.take(i as int));
            assert(copies.take(i + 1).last() == text@);
        }
    }
    assert(copies.take(count.element as int) == copies);
    Item::from_parts(result, attributes)
}

/// The part of a text whose length counts for its padding: what comes before the first (or after the
/// last) occurrence of `up_to`, where that is given and occurs, otherwise the whole.
pub open spec fn measured_part(text: Seq<char>, up_to: Seq<char>, from_end: bool) -> Seq<char> {
    if up_to.len() == 0 {
        text
    } else if from_end {
        match last_match(text, up_to, text.len() - up_to.len()) {
            Some(i) => text.skip(i + up_to.len()),
            None => text,
        }
    } else {
        match first_match(text, up_to, 0) {
            Some(i) => text.take(i),
            None => text,
        }
    }
}

/// The measured part holds no character that the text does not.
proof fn lemma_measured_within(text: Seq<char>, up_to: Seq<char>, from_end: bool)
    ensures
        forall|i: int|
            0 <= i < measured_part(text, up_to, from_end).len() ==> text.contains(
                #[trigger] measured_part(text, up_to, from_end)[i],
            ),
{
    lemma_first_match(text, up_to, 0);
    lemma_last_match(text, up_to, text.len() - up_to.len());
}

/// The part of a text whose length counts for its padding.
pub fn measure_part(text: &str, up_to: &str, from_end: bool) -> (r: String)
    ensures
        r@ == measured_part(text@, up_to@, from_end),
{
    if up_to.is_empty() {
        return text.to_owned();
    }
    let chars = chars_of(text);
    let pattern = chars_of(up_to);
    let n = chars.len();
    proof {
        lemma_first_match(text@, up_to@, 0);
        lemma_last_match(text@, up_to@, text@.len() - up_to@.len());
    }
    if from_end {
        match find_last(&chars, &pattern) {
            Some(i) => {
                assert(text@.skip(i + up_to@.len()) == text@.subrange(
                    i + up_to@.len(),
                    text@.len() as int,
                ));
                string_of(&chars, i + pattern.len(), n)
            },
            None => text.to_owned(),
        }
    } else {
        match find_from(&chars, &pattern, 0) {
            Some(i) => {
                assert(text@.take(i as int) == text@.subrange(0, i as int));
                string_of(&chars, 0, i)
            },
            None => text.to_owned(),
        }
    }
}

/// Pads the string to a target length by filling with the given repeated substring. If the string
/// already meets or exceeds the target length, it is returned unchanged.
///
/// A multi-character padding may end partway through its final repetition. Where `up_to` is given
/// and occurs, the length concerns only the portion before its first (or, from the end, after its
/// last) occurrence. For example, this can pad numbers with leading zeros to align them before the
/// decimal point.
pub fn string_pad<A>(
    string: Item<String, A>,
    length: Item<u32, A>,
    padding: Item<String, A>,
    up_to: Item<String, A>,
    from_end: Item<bool, A>,
) -> (r: Item<String, A>)
    ensures
        r.element@ == if padding.element@.len() == 0 {
            string.element@
        } else {
            padded(
                string.element@,
                grapheme_clusters(
                    measured_part(string.element@, up_to.element@, from_end.element),
                ).len(),
                length.element as nat,
                grapheme_clusters(padding.element@),
                from_end.element,
            )
        },
        printable_ascii(string.element@) && printable_ascii(padding.element@) ==> r.element@ == ({
            let part = measured_part(string.element@, up_to.element@, from_end.element);
            let lacking = if part.len() < length.element && padding.element@.len() > 0 {
                (length.element - part.len()) as nat
            } else {
                0
            };
            let fill = Seq::new(
                lacking,
                |i: int| padding.element@[i % (padding.element@.len() as int)],
            );
            if from_end.element {
                string.element@ + fill
            } else {
                fill + string.element@
            }
        }),
        r.attributes == string.attributes,
{
    if padding.element.as_str().is_empty() {
        return string;
    }
    let (text, attributes) = string.into_parts();
    let part = measure_part(text.as_str(), up_to.element.as_str(), from_end.element);
    let current = graphemes(part.as_str()).len();
    let padding_clusters = graphemes(padding.element.as_str());
    proof {
        if padding_clusters@.len() == 0 {
            assert(texts(padding_clusters@) == Seq::<Seq<char>>::empty());
        }
        if printable_ascii(text@) && printable_ascii(padding.element@) {
            lemma_measured_within(text@, up_to.element@, from_end.element);
            assert forall|i: int| 0 <= i < part@.len() implies ' ' <= #[trigger] part@[i] <= '~' by {
                assert(text@.contains(part@[i]));
            }
            assert(printable_ascii(part@));
            if part@.len() < length.element {
                lemma_repeated_chars(padding.element@, (length.element - part@.len()) as nat);
            }
        }
    }
    let result = pad_clusters(
        text,
        current,
        length.element as usize,
        &padding_clusters,
        from_end.element,
    );
    Item::from_parts(result, attributes)
}

/// Checks whether the string contains the given substring. Optionally restricts the match to only
/// the start and/or end of the string.
pub fn string_contains<A>(
    string: Item<String, A>,
    substring: Item<String, A>,
    at_start: Item<bool, A>,
    at_end: Item<bool, A>,
) -> (r: Item<bool, A>)
    ensures
        r.element == {
            let text = string.element@;
            let pattern = substring.element@;
            if at_start.element || at_end.element {
                (at_start.element ==> matches_at(text, pattern, 0)) && (at_end.element
                    ==> matches_at(text, pattern, text.len() - pattern.len()))
            } else {
                contains_text(text, pattern)
            }
        },
        r.attributes == string.attributes,
{
    let (text, attributes) = string.into_parts();
    let chars = chars_of(text.as_str());
    let pattern = chars_of(substring.element.as_str());
    let result = if at_start.element || at_end.element {
        let starts = !at_start.element || matches_here(&chars, &pattern, 0);
        let ends = !at_end.element || (pattern.len() <= chars.len() && matches_here(
            &chars,
            &pattern,
            chars.len() - pattern.len(),
        ));
        starts && ends
    } else {
        proof {
            lemma_first_match(chars@, pattern@, 0);
        }
        find_from(&chars, &pattern, 0).is_some()
    };
    Item::from_parts(result, attributes)
}

/// The index of the character at which a substring begins, or -1 where it does not occur. An empty
/// substring begins at the start or, from the end, behind the last character.
pub open spec fn found_index(text: Seq<char>, pattern: Seq<char>, from_end: bool) -> int {
    if pattern.len() == 0 {
        if from_end {
            grapheme_clusters(text).len() as int
        } else {
            0
        }
    } else {
        match found_place(text, pattern, from_end) {
            Some(i) => grapheme_clusters(text.take(i)).len() as int,
            None => -1,
        }
    }
}

/// The first (or last) place at which a substring begins, where it occurs. An empty one begins at the
/// start or, from the end, behind the last character.
pub open spec fn found_place(text: Seq<char>, pattern: Seq<char>, from_end: bool) -> Option<int> {
    if from_end {
        last_match(text, pattern, text.len() - pattern.len())
    } else {
        first_match(text, pattern, 0)
    }
}

/// Whether the text from `place` on starts with the substring, and from no place before it (or, from
/// the end, behind it) does.
pub open spec fn extreme_match(
    text: Seq<char>,
    pattern: Seq<char>,
    from_end: bool,
    place: int,
) -> bool {
    &&& matches_at(text, pattern, place)
    &&& forall|j: int| #[trigger]
        matches_at(text, pattern, j) ==> if from_end {
            j <= place
        } else {
            place <= j
        }
}

/// The index of a substring is found exactly where it is contained. Where every character before it
/// is a `char` of its own, the text from the index on starts with the substring, and no smaller (or,
/// from the end, larger) index has this property.
pub proof fn lemma_found_index(text: Seq<char>, pattern: Seq<char>, from_end: bool)
    ensures
        found_index(text, pattern, from_end) == -1 <==> !contains_text(text, pattern),
        found_place(text, pattern, from_end) is Some <==> contains_text(text, pattern),
        found_place(text, pattern, from_end) matches Some(i) ==> {
            &&& extreme_match(text, pattern, from_end, i)
            &&& grapheme_clusters(text.take(i)).len() == i ==> found_index(text, pattern, from_end)
                == i
        },
        pattern.len() == 0 ==> found_place(text, pattern, from_end) == Some(
            if from_end {
                text.len() as int
            } else {
                0
            },
        ),
{
    lemma_first_match(text, pattern, 0);
    lemma_last_match(text, pattern, text.len() - pattern.len());
    assert forall|j: int| #[trigger] matches_at(text, pattern, j) implies 0 <= j <= text.len()
        - pattern.len() by {}
    if pattern.len() == 0 {
        assert(text.subrange(0, 0) == pattern);
        assert(text.subrange(text.len() as int, text.len() as int) == pattern);
        assert(matches_at(text, pattern, 0));
        assert(matches_at(text, pattern, text.len() as int));
        assert(text.take(text.len() as int) == text);
    }
}

/// What of a text comes before the first (or last) occurrence of a substring, where it occurs.
pub fn text_before(text: &str, substring: &str, from_end: bool) -> (r: Option<String>)
    requires
        0 < substring@.len(),
    ensures
        match found_place(text@, substring@, from_end) {
            Some(i) => r matches Some(before) && before@ == text@.take(i),
            None => r is None,
        },
{
    let chars = chars_of(text);
    let pattern = chars_of(substring);
    proof {
        lemma_first_match(text@, substring@, 0);
        lemma_last_match(text@, substring@, text@.len() - substring@.len());
    }
    let found = if from_end {
        find_last(&chars, &pattern)
    } else {
        find_from(&chars, &pattern, 0)
    };
    match found {
        Some(i) => {
            assert(text@.take(i as int) == text@.subrange(0, i as int));
            Some(string_of(&chars, 0, i))
        },
        None => None,
    }
}

/// Searches within the input string for the first (or last) occurrence of a substring and returns
/// the index of where that begins, or -1 if not found.
pub fn string_find_index<A>(
    string: Item<String, A>,
    substring: Item<String, A>,
    from_end: Item<bool, A>,
) -> (r: Item<i128, A>)
    ensures
        r.element == found_index(string.element@, substring.element@, from_end.element),
        r.element == -1 <==> !contains_text(string.element@, substring.element@),
        printable_ascii(string.element@) && r.element != -1 ==> extreme_match(
            string.element@,
            substring.element@,
            from_end.element,
            r.element as int,
        ),
        r.attributes == string.attributes,
{
    let (text, attributes) = string.into_parts();
    proof {
        lemma_found_index(text@, substring.element@, from_end.element);
    }
    let result: i128 = if substring.element.as_str().is_empty() {
        if from_end.element {
            graphemes(text.as_str()).len() as i128
        } else {
            0
        }
    } else {
        match text_before(text.as_str(), substring.element.as_str(), from_end.element) {
            Some(before) => graphemes(before.as_str()).len() as i128,
            None => -1,
        }
    };
    Item::from_parts(result, attributes)
}

/// How often a substring occurs, with or without overlap.
pub open spec fn occurrences(text: Seq<char>, pattern: Seq<char>, overlapping: bool) -> nat {
    if pattern.len() == 0 {
        0
    } else if overlapping {
        match_positions(text, pattern).len()
    } else {
        disjoint_matches(text, pattern)
    }
}

/// Counts the number of occurrences of a substring within the string.
///
/// Overlapping occurrences are counted using the substring as a sliding window. For example, "aa"
/// occurs twice in "aaaa" without overlapping but three times with overlapping.
pub fn string_occurrences<A>(
    string: Item<String, A>,
    substring: Item<String, A>,
    overlapping: Item<bool, A>,
) -> (r: Item<usize, A>)
    ensures
        r.element == occurrences(string.element@, substring.element@, overlapping.element),
        r.attributes == string.attributes,
{
    let (text, attributes) = string.into_parts();
    if substring.element.as_str().is_empty() {
        return Item::from_parts(0, attributes);
    }
    let chars = chars_of(text.as_str());
    let pattern = chars_of(substring.element.as_str());
    let count = if overlapping.element {
        count_overlapping(&chars, &pattern)
    } else {
        count_disjoint(&chars, &pattern)
    };
    Item::from_parts(count, attributes)
}

/// Counts the number of characters in a string.
pub fn string_length<A>(string: Item<String, A>) -> (r: Item<usize, A>)
    ensures
        r.element == grapheme_clusters(string.element@).len(),
        r.element <= string.element@.len(),
        r.element == 0 <==> string.element@.len() == 0,
        printable_ascii(string.element@) ==> r.element == string.element@.len(),
        r.attributes == string.attributes,
{
    let (text, attributes) = string.into_parts();
    let clusters = graphemes(text.as_str());
    proof {
        assert(texts(clusters@).len() == clusters@.len());
        lemma_cluster_count(texts(clusters@));
    }
    Item::from_parts(clusters.len(), attributes)
}

/// Splits a string into a list of substrings based on the specified delimiter. This is the inverse
/// of [`string_join`].
///
/// For example, splitting "a, b, c" with delimiter ", " produces `["a", "b", "c"]`.
pub fn string_split<A>(
    string: Item<String, A>,
    delimiter: Item<String, A>,
    delimiter_escaping: Item<bool, A>,
) -> (r: Vec<Item<String, A>>)
    ensures
        element_texts(r@) == pieces(
            string.element@,
            effective_separator(delimiter.element@, delimiter_escaping.element),
        ),
        forall|i: int|
            0 <= i < r@.len() ==> (#[trigger] r@[i]).attributes@ == Seq::<(String, A)>::empty(),
{
    let delimiter = prepare_separator(delimiter.element, delimiter_escaping.element);
    let chars = chars_of(string.element.as_str());
    let parts = split_pieces(&chars, &chars_of(delimiter.as_str()));
    let n = parts.len();
    let mut result: Vec<Item<String, A>> = Vec::new();
    for i in 0..n
        invariant
            n == parts@.len(),
            result@.len() == i,
            forall|k: int| 0 <= k < i ==> (#[trigger] result@[k]).element@ == parts@[k]@,
            forall|k: int|
                0 <= k < i ==> (#[trigger] result@[k]).attributes@ == Seq::<(String, A)>::empty(),
    {
        result.push(Item::new_from_element(parts[i].clone()));
    }
    assert(element_texts(result@) == texts(parts@));
    result
}

/// Joins a list of strings together with a separator between each pair. This is the inverse of
/// [`string_split`].
///
/// For example, joining `["a", "b", "c"]` with separator ", " produces "a, b, c".
pub fn string_join<A>(
    strings: Vec<Item<String, A>>,
    separator: Item<String, A>,
    separator_escaping: Item<bool, A>,
) -> (r: Item<String, A>)
    ensures
        r.element@ == joined(
            element_texts(strings@),
            effective_separator(separator.element@, separator_escaping.element),
        ),
        r.attributes@ == Seq::<(String, A)>::empty(),
{
    let separator = prepare_separator(separator.element, separator_escaping.element);
    let n = strings.len();
    let mut parts: Vec<String> = Vec::new();
    for i in 0..n
        invariant
            n == strings@.len(),
            parts@.len() == i,
            forall|k: int| 0 <= k < i ==> (#[trigger] parts@[k])@ == strings@[k].element@,
    {
        parts.push(strings[i].element.clone());
    }
    assert(texts(parts@) == element_texts(strings@));
    Item::new_from_element(join(&parts, separator.as_str()))
}

} // verus!
