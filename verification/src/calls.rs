//! What the results of the operations satisfy, and how those of two calls relate.

use crate::align::TextAlign;
use crate::casing::{string_capitalization, StringCapitalization};
use crate::compose::{bounding_box, frame_size, line_breaking, lines_clipping, LineBreaking};
use crate::graphemes::{grapheme_clusters, lemma_truncation, SignedIndex};
use crate::item::Item;
use crate::laws::{
    lemma_first_occurrence, lemma_joined, lemma_no_occurrence, lemma_overlapping_grows,
    lemma_separator_is_unescaped, lemma_searches_agree, lemma_split_counts, lemma_trim,
};
use crate::layout::{lemma_fitted_counts, line_clusters, plan_line, Cluster, LinePlacement, LineRange};
use crate::number::{
    format_number, lemma_minus_stands_first, lemma_shown_places, number_text, string_to_number,
    NumberFormat, RenderedNumber,
};
use crate::search::{contains_text, lemma_join_of_split, matches_at};
use crate::spacing::Double;
use crate::strings::{
    string_concatenate, string_contains, string_escape, string_find_index, string_join,
    string_length, string_occurrences, string_pad, string_repeat, string_replace, string_reverse,
    string_split, string_trim, string_truncate,
};
use crate::text::white_space;
use vstd::prelude::*;

verus! {

/// Joining what was split, with the separator that was split at, gives the string back: whatever it is,
/// whatever the separator is, and whether or not its escape sequences are converted.
pub proof fn lemma_split_then_join<A>(
    string: Item<String, A>,
    separator: Item<String, A>,
    escaping: Item<bool, A>,
    parts: Vec<Item<String, A>>,
    r: Item<String, A>,
)
    requires
        call_ensures(string_split::<A>, (string, separator, escaping), parts),
        call_ensures(string_join::<A>, (parts, separator, escaping), r),
    ensures
        r.element@ == string.element@,
        r.attributes@.len() == 0,
{
    lemma_join_of_split(
        string.element@,
        crate::strings::effective_separator(separator.element@, escaping.element),
    );
}

/// A separator that was escaped is used, where escape sequences are converted, as it was before: the
/// strings joined with it are those joined with the separator itself.
pub proof fn lemma_join_unescapes<A>(
    strings: Vec<Item<String, A>>,
    plain: Item<String, A>,
    unescape: Item<bool, A>,
    written: Item<String, A>,
    keep: Item<bool, A>,
    convert: Item<bool, A>,
    a: Item<String, A>,
    b: Item<String, A>,
)
    requires
        !unescape.element && !keep.element && convert.element,
        call_ensures(string_escape::<A>, (plain, unescape), written),
        call_ensures(string_join::<A>, (strings, plain, keep), a),
        call_ensures(string_join::<A>, (strings, written, convert), b),
    ensures
        a.element@ == b.element@,
{
    lemma_separator_is_unescaped(plain.element@);
}

/// Joining two strings puts the separator between them, joining one gives it, and joining none nothing.
pub proof fn lemma_join_two<A>(
    strings: Vec<Item<String, A>>,
    separator: Item<String, A>,
    keep: Item<bool, A>,
    r: Item<String, A>,
)
    requires
        !keep.element,
        call_ensures(string_join::<A>, (strings, separator, keep), r),
    ensures
        strings@.len() == 0 ==> r.element@.len() == 0,
        strings@.len() == 1 ==> r.element@ == strings@[0].element@,
        strings@.len() == 2 ==> r.element@ == strings@[0].element@ + separator.element@
            + strings@[1].element@,
{
    let parts = crate::strings::element_texts(strings@);
    if strings@.len() <= 1 {
        lemma_joined(parts, Seq::empty(), separator.element@);
    } else if strings@.len() == 2 {
        lemma_joined(seq![parts[0]], seq![parts[1]], separator.element@);
        lemma_joined(seq![parts[0]], Seq::empty(), separator.element@);
        lemma_joined(seq![parts[1]], Seq::empty(), separator.element@);
        assert(seq![parts[0]] + seq![parts[1]] == parts);
    }
}

/// What is escaped and then unescaped is as it was.
pub proof fn lemma_escape_then_unescape<A>(
    string: Item<String, A>,
    escape: Item<bool, A>,
    written: Item<String, A>,
    unescape: Item<bool, A>,
    r: Item<String, A>,
)
    requires
        !escape.element && unescape.element,
        call_ensures(string_escape::<A>, (string, escape), written),
        call_ensures(string_escape::<A>, (written, unescape), r),
    ensures
        r.element@ == string.element@,
        r.attributes == string.attributes,
{
    crate::escape::lemma_unescape_of_escape(string.element@);
}

/// Replacing works from the first occurrence on: what is before it stays, the other text takes its place,
/// and what is behind it is replaced on its own. A string without an occurrence stays.
pub proof fn lemma_replace_from_first<A>(
    string: Item<String, A>,
    rest: Item<String, A>,
    from: Item<String, A>,
    to: Item<String, A>,
    before: Seq<char>,
    r: Item<String, A>,
    s: Item<String, A>,
)
    requires
        0 < from.element@.len(),
        call_ensures(string_replace::<A>, (string, from, to), r),
        call_ensures(string_replace::<A>, (rest, from, to), s),
    ensures
        string.element@ == before + from.element@ + rest.element@ && (forall|i: int|
            0 <= i < before.len() ==> #[trigger] string.element@.subrange(
                i,
                i + from.element@.len(),
            ) != from.element@) ==> r.element@ == before + to.element@ + s.element@,
        (forall|i: int|
            0 <= i && i + from.element@.len() <= string.element@.len()
                ==> #[trigger] string.element@.subrange(i, i + from.element@.len())
                != from.element@) ==> r.element@ == string.element@,
        r.attributes == string.attributes,
{
    let pattern = from.element@;
    if string.element@ == before + pattern + rest.element@ && forall|i: int|
        0 <= i < before.len() ==> #[trigger] string.element@.subrange(i, i + pattern.len())
            != pattern {
        lemma_first_occurrence(before, pattern, rest.element@, to.element@);
    }
    if forall|i: int|
        0 <= i && i + pattern.len() <= string.element@.len() ==> #[trigger] string.element@.subrange(
            i,
            i + pattern.len(),
        ) != pattern {
        lemma_no_occurrence(string.element@, pattern, to.element@);
    }
}

/// A string contains what it is put together of, at its start and at its end too.
pub proof fn lemma_contains_parts<A>(
    first: Item<String, A>,
    second: Item<String, A>,
    whole: Item<String, A>,
    yes: Item<bool, A>,
    no: Item<bool, A>,
    starts: Item<bool, A>,
    ends: Item<bool, A>,
    anywhere: Item<bool, A>,
)
    requires
        yes.element && !no.element,
        call_ensures(string_concatenate::<A>, (first, second), whole),
        call_ensures(string_contains::<A>, (whole, first, yes, no), starts),
        call_ensures(string_contains::<A>, (whole, second, no, yes), ends),
        call_ensures(string_contains::<A>, (whole, second, no, no), anywhere),
    ensures
        starts.element,
        ends.element,
        anywhere.element,
{
    let n = first.element@.len() as int;
    let text = whole.element@;
    assert(text.subrange(0, n) == first.element@);
    assert(text.subrange(n, text.len() as int) == second.element@);
    assert(matches_at(text, second.element@, n));
}

/// Whether a string contains another: anywhere, at its start, at its end, or at both, as asked for.
pub proof fn lemma_contains<A>(
    string: Item<String, A>,
    substring: Item<String, A>,
    at_start: Item<bool, A>,
    at_end: Item<bool, A>,
    r: Item<bool, A>,
)
    requires
        call_ensures(string_contains::<A>, (string, substring, at_start, at_end), r),
    ensures
        ({
            let text = string.element@;
            let pattern = substring.element@;
            let starts = pattern.len() <= text.len() && text.take(pattern.len() as int) == pattern;
            let ends = pattern.len() <= text.len() && text.skip(text.len() - pattern.len())
                == pattern;
            &&& at_start.element && !at_end.element ==> r.element == starts
            &&& !at_start.element && at_end.element ==> r.element == ends
            &&& at_start.element && at_end.element ==> r.element == (starts && ends)
            &&& !at_start.element && !at_end.element ==> (r.element <==> exists|i: int|
                0 <= i && i + pattern.len() <= text.len() && #[trigger] text.subrange(
                    i,
                    i + pattern.len(),
                ) == pattern)
        }),
        r.attributes == string.attributes,
{
    let text = string.element@;
    let pattern = substring.element@;
    if pattern.len() <= text.len() {
        assert(text.take(pattern.len() as int) == text.subrange(0, pattern.len() as int));
        assert(text.skip(text.len() - pattern.len()) == text.subrange(
            text.len() - pattern.len(),
            text.len() as int,
        ));
    }
    if contains_text(text, pattern) {
        let i = choose|i: int| matches_at(text, pattern, i);
        assert(text.subrange(i, i + pattern.len()) == pattern);
    }
    if exists|i: int|
        0 <= i && i + pattern.len() <= text.len() && #[trigger] text.subrange(i, i + pattern.len())
            == pattern {
        let i = choose|i: int|
            0 <= i && i + pattern.len() <= text.len() && #[trigger] text.subrange(
                i,
                i + pattern.len(),
            ) == pattern;
        assert(matches_at(text, pattern, i));
    }
}

/// A substring is contained exactly where it has an index and, unless it is empty, where it is counted;
/// and a split at it gives one part more than it is counted without overlap.
pub proof fn lemma_searches_of_one_string<A>(
    string: Item<String, A>,
    substring: Item<String, A>,
    no: Item<bool, A>,
    from_end: Item<bool, A>,
    overlapping: Item<bool, A>,
    contained: Item<bool, A>,
    index: Item<i128, A>,
    count: Item<usize, A>,
    parts: Vec<Item<String, A>>,
)
    requires
        !no.element,
        call_ensures(string_contains::<A>, (string, substring, no, no), contained),
        call_ensures(string_find_index::<A>, (string, substring, from_end), index),
        call_ensures(string_occurrences::<A>, (string, substring, overlapping), count),
        call_ensures(string_split::<A>, (string, substring, no), parts),
    ensures
        contained.element <==> index.element != -1,
        substring.element@.len() > 0 ==> (contained.element <==> count.element > 0),
        substring.element@.len() == 0 ==> contained.element && count.element == 0,
        substring.element@.len() > 0 && !overlapping.element ==> parts@.len() == count.element + 1,
{
    lemma_searches_agree(
        string.element@,
        substring.element@,
        from_end.element,
        overlapping.element,
    );
    if substring.element@.len() > 0 {
        lemma_split_counts(string.element@, substring.element@);
        assert(crate::strings::element_texts(parts@).len() == parts@.len());
    }
}

/// One more character adds an occurrence, counted with overlap, exactly where the string then ends with
/// the substring.
pub proof fn lemma_count_grows<A>(
    string: Item<String, A>,
    longer: Item<String, A>,
    c: char,
    substring: Item<String, A>,
    yes: Item<bool, A>,
    before: Item<usize, A>,
    now: Item<usize, A>,
    ends: Item<bool, A>,
    no: Item<bool, A>,
)
    requires
        yes.element && !no.element,
        substring.element@.len() > 0,
        longer.element@ == string.element@.push(c),
        call_ensures(string_occurrences::<A>, (string, substring, yes), before),
        call_ensures(string_occurrences::<A>, (longer, substring, yes), now),
        call_ensures(string_contains::<A>, (longer, substring, no, yes), ends),
    ensures
        now.element == before.element + if ends.element {
            1int
        } else {
            0
        },
        string.element@.len() == 0 ==> before.element == 0,
{
    lemma_overlapping_grows(string.element@, c, substring.element@);
    lemma_contains(longer, substring, no, yes, ends);
    if string.element@.len() == 0 {
        assert(string.element@ == Seq::<char>::empty());
    }
}

/// A trimmed string is what is left between the white space at the ends that are trimmed.
pub proof fn lemma_trim_call<A>(
    string: Item<String, A>,
    start: Item<bool, A>,
    end: Item<bool, A>,
    r: Item<String, A>,
)
    requires
        call_ensures(string_trim::<A>, (string, start, end), r),
    ensures
        exists|from: int, to: int|
            {
                &&& 0 <= from <= to <= string.element@.len()
                &&& r.element@ == #[trigger] string.element@.subrange(from, to)
                &&& forall|i: int|
                    0 <= i < from || to <= i < string.element@.len() ==> white_space(
                        #[trigger] string.element@[i],
                    )
                &&& !start.element ==> from == 0
                &&& !end.element ==> to == string.element@.len()
            },
        start.element && r.element@.len() > 0 ==> !white_space(r.element@[0]),
        end.element && r.element@.len() > 0 ==> !white_space(r.element@.last()),
        r.attributes == string.attributes,
{
    lemma_trim(string.element@, start.element, end.element);
}

/// One repetition more adds the separator and the string; one repetition is the string, and none is
/// nothing.
pub proof fn lemma_repeat_call<A>(
    string: Item<String, A>,
    count: Item<u32, A>,
    next: Item<u32, A>,
    separator: Item<String, A>,
    keep: Item<bool, A>,
    r: Item<String, A>,
    s: Item<String, A>,
)
    requires
        !keep.element,
        next.element == count.element + 1,
        call_ensures(string_repeat::<A>, (string, count, separator, keep), r),
        call_ensures(string_repeat::<A>, (string, next, separator, keep), s),
    ensures
        count.element == 0 ==> r.element@.len() == 0 && s.element@ == string.element@,
        count.element > 0 ==> s.element@ == r.element@ + separator.element@ + string.element@,
        r.attributes == string.attributes,
{
    let copies = Seq::new(count.element as nat, |i: int| string.element@);
    let more = Seq::new(next.element as nat, |i: int| string.element@);
    let one = seq![string.element@];
    assert(more == copies + one);
    lemma_joined(copies, one, separator.element@);
    lemma_joined(one, Seq::empty(), separator.element@);
    if count.element == 0 {
        assert(more == one);
    }
}

/// A string within the limit is kept. A longer one becomes as many of its characters as leave room for
/// the suffix, followed by the suffix, or as much of the suffix alone as is allowed.
pub proof fn lemma_truncate_call<A>(
    string: Item<String, A>,
    length: Item<u32, A>,
    suffix: Item<String, A>,
    r: Item<String, A>,
)
    requires
        call_ensures(string_truncate::<A>, (string, length, suffix), r),
    ensures
        ({
            let clusters = grapheme_clusters(string.element@);
            let ending = grapheme_clusters(suffix.element@);
            let limit = length.element as int;
            &&& clusters.len() <= limit ==> r.element@ == string.element@
            &&& clusters.len() > limit && ending.len() <= limit ==> r.element@ == clusters.take(
                limit - ending.len(),
            ).flatten() + ending.flatten()
            &&& clusters.len() > limit && ending.len() > limit ==> r.element@ == ending.take(
                limit,
            ).flatten()
        }),
        r.attributes == string.attributes,
{
    lemma_truncation(
        string.element@,
        grapheme_clusters(string.element@),
        grapheme_clusters(suffix.element@),
        length.element as nat,
    );
}

/// A padded string still ends with that string, or begins with it from the end. Nothing is added without
/// a padding, nor to a string that is long enough, and one character of length more adds one character of
/// the padding, the next in turn.
pub proof fn lemma_pad_call<A>(
    string: Item<String, A>,
    length: Item<u32, A>,
    next: Item<u32, A>,
    padding: Item<String, A>,
    up_to: Item<String, A>,
    from_end: Item<bool, A>,
    r: Item<String, A>,
    s: Item<String, A>,
)
    requires
        next.element == length.element + 1,
        grapheme_clusters(padding.element@).len() > 0,
        call_ensures(string_pad::<A>, (string, length, padding, up_to, from_end), r),
        call_ensures(string_pad::<A>, (string, next, padding, up_to, from_end), s),
    ensures
        padding.element@.len() == 0 ==> r.element@ == string.element@,
        r.element@.len() >= string.element@.len(),
        from_end.element ==> r.element@.take(string.element@.len() as int) == string.element@,
        !from_end.element ==> r.element@.skip(r.element@.len() - string.element@.len())
            == string.element@,
        up_to.element@.len() == 0 && grapheme_clusters(string.element@).len() >= length.element
            ==> r.element@ == string.element@,
        up_to.element@.len() == 0 && padding.element@.len() > 0 && from_end.element
            && grapheme_clusters(string.element@).len() <= length.element ==> s.element@
            == r.element@ + grapheme_clusters(padding.element@)[(length.element
            - grapheme_clusters(string.element@).len()) % (grapheme_clusters(
            padding.element@,
        ).len() as int)],
        r.attributes == string.attributes,
{
    let text = string.element@;
    let clusters = grapheme_clusters(padding.element@);
    let part = crate::strings::measured_part(text, up_to.element@, from_end.element);
    let current = grapheme_clusters(part).len();
    if padding.element@.len() > 0 {
        crate::graphemes::lemma_padding_grows(text, current, length.element as nat, clusters);
        if current < length.element {
            let filled = crate::graphemes::repeated(
                clusters,
                (length.element - current) as nat,
            ).flatten();
            assert((text + filled).take(text.len() as int) == text);
            assert((filled + text).skip(filled.len() as int) == text);
        }
    }
    assert(text.take(text.len() as int) == text);
    assert(text.skip(0) == text);
}

/// Reversing twice keeps the length of a string, as reversing once does, and concatenating adds lengths.
pub proof fn lemma_lengths_kept<A>(
    string: Item<String, A>,
    other: Item<String, A>,
    reversed: Item<String, A>,
    both: Item<String, A>,
)
    requires
        call_ensures(string_reverse::<A>, (string,), reversed),
        call_ensures(string_concatenate::<A>, (string, other), both),
    ensures
        reversed.element@.len() == string.element@.len(),
        both.element@.len() == string.element@.len() + other.element@.len(),
        both.element@.take(string.element@.len() as int) == string.element@,
        both.element@.skip(string.element@.len() as int) == other.element@,
{
}

/// Whatever the joiner, a style joins the same words: with any two joiners, the words that the one stands
/// between, the other does. Lower and upper case do not depend on it.
pub proof fn lemma_capitalization_joins<A>(
    string: Item<String, A>,
    style: Item<StringCapitalization, A>,
    yes: Item<bool, A>,
    joiner: Item<String, A>,
    other: Item<String, A>,
    r: Item<String, A>,
    s: Item<String, A>,
)
    requires
        yes.element,
        call_ensures(string_capitalization::<A>, (string, style, yes, joiner), r),
        call_ensures(string_capitalization::<A>, (string, style, yes, other), s),
    ensures
        style.element is LowerCase || style.element is UpperCase ==> r.element@ == s.element@,
        !(style.element is LowerCase || style.element is UpperCase) ==> exists|
            words: Seq<Seq<char>>,
        |
            r.element@ == #[trigger] crate::text::joined(words, joiner.element@) && s.element@
                == #[trigger] crate::text::joined(words, other.element@) && (
            style.element is HeadlineCase || words.len() == crate::casing::default_words(
                string.element@,
            ).len()),
        r.attributes == string.attributes,
{
    if !(style.element is LowerCase || style.element is UpperCase) {
        crate::casing::lemma_joiner_stands_between_words(
            string.element@,
            style.element,
            joiner.element@,
            other.element@,
        );
    }
}

/// A negative number is shown as a minus, followed by what is shown of the number without it.
pub proof fn lemma_show_negative(
    format: NumberFormat,
    written: &str,
    unsigned: &str,
    places: usize,
    r: String,
    s: String,
)
    requires
        unsigned@.len() > 0 ==> unsigned@[0] != '-',
        written@ == seq!['-'] + unsigned@,
        call_ensures(NumberFormat::show, (&format, written, places), r),
        call_ensures(NumberFormat::show, (&format, unsigned, places), s),
    ensures
        r@ == seq!['-'] + s@,
{
    assert(written@.skip(1) == unsigned@);
    lemma_minus_stands_first(format, written@, places as nat);
}

/// A string that was read as a number is that number, and one that was not is the fallback.
pub proof fn lemma_number_read<N, A>(
    string: Item<String, A>,
    parsed: Option<N>,
    fallback: Item<N, A>,
    r: Item<N, A>,
)
    requires
        call_ensures(string_to_number::<N, A>, (string, parsed, fallback), r),
    ensures
        parsed is Some ==> parsed == Some(r.element),
        parsed is None ==> r.element == fallback.element,
        r.attributes == string.attributes,
{
}

/// A line is not drawn exactly where it lies past the height of its block. A line that is fitted shares
/// its spacing over all of its spaces and gaps that start before the white space at its end.
pub proof fn lemma_plan_call(
    text: &str,
    align: TextAlign,
    range: LineRange,
    runs: Vec<Vec<Cluster>>,
    past_max_height: bool,
    r: Option<crate::layout::LinePlan>,
)
    requires
        line_clusters(runs@).len() <= usize::MAX,
        call_ensures(plan_line, (text, align, range, &runs, past_max_height), r),
    ensures
        past_max_height <==> r is None,
        r matches Some(plan) ==> (plan.placement matches LinePlacement::Fitted { spaces, gaps } ==> {
            let clusters = line_clusters(runs@);
            let end = plan.visible_end;
            let glyphs = clusters.filter(|c: Cluster| c.start < end).len();
            &&& spaces == clusters.filter(|c: Cluster| c.start < end && c.is_space).len()
            &&& glyphs > 0 ==> gaps + 1 == glyphs
            &&& glyphs == 0 ==> gaps == 0
        }),
{
    lemma_fitted_counts(text@, align, range, line_clusters(runs@));
}

/// Each side of a bounding box is its limit where it has one, and that of the layout where it has none
/// or is tested for clipping. A text without a layout has no size, and a frame is a box without a test.
pub proof fn lemma_box_call(
    size: (Double, Double),
    max_width: Option<Double>,
    max_height: Option<Double>,
    tested: (Double, Double),
    r: (Double, Double),
    frame: (Double, Double),
    missing: (Double, Double),
)
    requires
        call_ensures(bounding_box, (Some(size), max_width, max_height, true), tested),
        call_ensures(bounding_box, (Some(size), max_width, max_height, false), r),
        call_ensures(frame_size, (max_width, max_height, size), frame),
        call_ensures(bounding_box, (None::<(Double, Double)>, max_width, max_height, false), missing),
    ensures
        tested == size,
        max_width matches Some(width) ==> r.0 == width,
        max_width is None ==> r.0 == size.0,
        max_height matches Some(height) ==> r.1 == height,
        max_height is None ==> r.1 == size.1,
        frame == r,
        missing.0.bits == 0 && missing.1.bits == 0,
{
}

/// Lines are clipped exactly where there is a limit and the layout is higher than it.
pub proof fn lemma_clipping_call(
    size: (Double, Double),
    max_width: Option<Double>,
    max_height: Option<Double>,
    r: bool,
)
    requires
        call_ensures(lines_clipping, (Some(size), max_width, max_height), r),
    ensures
        max_height is None ==> !r,
        max_height matches Some(limit) ==> r == limit.less(size.1),
{
}

/// The narrowest composition decides where lines break exactly for justified text of a limited width.
pub proof fn lemma_breaking_call(align: TextAlign, has_max_width: bool, r: LineBreaking)
    requires
        call_ensures(line_breaking, (align, has_max_width), r),
    ensures
        r is AsNarrowest <==> has_max_width && !(align is AlignLeft || align is AlignCenter
            || align is AlignRight),
{
}

/// A string has as many characters as it is taken apart into, and none only where it is empty.
pub proof fn lemma_length_call<A>(string: Item<String, A>, r: Item<usize, A>)
    requires
        call_ensures(string_length::<A>, (string,), r),
    ensures
        r.element == grapheme_clusters(string.element@).len(),
        r.element == 0 <==> string.element@.len() == 0,
        r.attributes == string.attributes,
{
}

/// The parts of a string before and from a place on, sliced, are the string.
pub proof fn lemma_slice_call<A>(
    string: Item<String, A>,
    zero: Item<SignedIndex, A>,
    at: Item<SignedIndex, A>,
    end: Item<SignedIndex, A>,
    place: usize,
    far: usize,
    first: Item<String, A>,
    second: Item<String, A>,
    whole: Item<String, A>,
    none: Item<String, A>,
)
    requires
        zero.element == SignedIndex::Zero,
        at.element == SignedIndex::Positive(place),
        end.element == SignedIndex::Positive(far),
        grapheme_clusters(string.element@).len() <= far,
        string.element@.len() <= far,
        call_ensures(crate::strings::string_slice::<A>, (string, zero, at), first),
        call_ensures(crate::strings::string_slice::<A>, (string, at, end), second),
        call_ensures(crate::strings::string_slice::<A>, (string, zero, end), whole),
        call_ensures(crate::strings::string_slice::<A>, (string, at, zero), none),
    ensures
        first.element@ + second.element@ == string.element@,
        whole.element@ == string.element@,
        none.element@.len() == 0,
{
    let clusters = grapheme_clusters(string.element@);
    crate::graphemes::lemma_slices(clusters, place, far);
    crate::graphemes::lemma_empty_slices(clusters, at.element, zero.element);
}

/// A formatted number is one of its renderings, shown as asked for: the one with as many decimal places as
/// asked for, or the first that can be read back, or the last that can carry meaning. None with fewer
/// places than it has can be read back.
pub proof fn lemma_format_call<A>(
    number: Item<RenderedNumber, A>,
    decimal_places: Item<u32, A>,
    decimal_separator: Item<String, A>,
    fixed_decimals: Item<bool, A>,
    use_thousands_separator: Item<bool, A>,
    thousands_separator: Item<String, A>,
    start_at_10000: Item<bool, A>,
    r: Item<String, A>,
)
    requires
        number.element.well_formed(),
        call_ensures(
            format_number::<A>,
            (
                number,
                decimal_places,
                decimal_separator,
                fixed_decimals,
                use_thousands_separator,
                thousands_separator,
                start_at_10000,
            ),
            r,
        ),
    ensures
        exists|places: nat|
            #![trigger number.element.renderings@[places as int]]
            {
                let format = NumberFormat {
                    decimal_places: decimal_places.element as usize,
                    decimal_separator: decimal_separator.element,
                    fixed_decimals: fixed_decimals.element,
                    use_thousands_separator: use_thousands_separator.element,
                    thousands_separator: thousands_separator.element,
                    start_at_10000: start_at_10000.element,
                };
                let written = number.element.renderings@;
                &&& places < written.len()
                &&& r.element@ == format.shown(written[places as int].text@, places)
                &&& places <= decimal_places.element
                &&& forall|p: nat| p < places ==> !(#[trigger] written[p as int]).round_trips
                &&& places == decimal_places.element || written[places as int].round_trips || places
                    == number.element.places_bound()
            },
        r.attributes == number.attributes,
{
    let places = number.element.shown_places(decimal_places.element as nat);
    lemma_shown_places(number.element, decimal_places.element as nat);
    let format = NumberFormat {
        decimal_places: decimal_places.element as usize,
        decimal_separator: decimal_separator.element,
        fixed_decimals: fixed_decimals.element,
        use_thousands_separator: use_thousands_separator.element,
        thousands_separator: thousands_separator.element,
        start_at_10000: start_at_10000.element,
    };
    assert(r.element@ == format.shown(
        number.element.renderings@[places as int].text@,
        places,
    ));
}

/// What is read as a number is what is left of a string between the white space around it.
pub proof fn lemma_number_text_call<A>(string: Item<String, A>, r: String)
    requires
        call_ensures(number_text::<A>, (&string,), r),
    ensures
        exists|from: int, to: int|
            {
                &&& 0 <= from <= to <= string.element@.len()
                &&& r@ == #[trigger] string.element@.subrange(from, to)
                &&& forall|i: int|
                    0 <= i < from || to <= i < string.element@.len() ==> white_space(
                        #[trigger] string.element@[i],
                    )
            },
        r@.len() > 0 ==> !white_space(r@[0]) && !white_space(r@.last()),
{
    lemma_trim(string.element@, true, true);
}

} // verus!
