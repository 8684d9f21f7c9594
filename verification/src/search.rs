//! Where one run of characters occurs in another.

use crate::graphemes::lemma_flatten_chars;
use crate::text::{joined, string_of, texts};
use vstd::prelude::*;

verus! {

/// Whether `pattern` stands in `text` with its first character at `i`.
pub open spec fn matches_at(text: Seq<char>, pattern: Seq<char>, i: int) -> bool {
    &&& 0 <= i
    &&& i + pattern.len() <= text.len()
    &&& text.subrange(i, i + pattern.len()) == pattern
}

/// Every place at which `pattern` stands in `text`, overlapping ones too.
pub open spec fn match_positions(text: Seq<char>, pattern: Seq<char>) -> Set<int> {
    Set::new(|i: int| matches_at(text, pattern, i))
}

/// Whether `pattern` stands anywhere in `text`.
pub open spec fn contains_text(text: Seq<char>, pattern: Seq<char>) -> bool {
    exists|i: int| matches_at(text, pattern, i)
}

/// The first place, not before `from`, at which `pattern` stands in `text`.
pub open spec fn first_match(text: Seq<char>, pattern: Seq<char>, from: int) -> Option<int>
    decreases text.len() - from + 1,
{
    if from + pattern.len() > text.len() {
        None
    } else if matches_at(text, pattern, from) {
        Some(from)
    } else {
        first_match(text, pattern, from + 1)
    }
}

/// The last place, not after `from`, at which `pattern` stands in `text`.
pub open spec fn last_match(text: Seq<char>, pattern: Seq<char>, from: int) -> Option<int>
    decreases from + 1,
{
    if from < 0 {
        None
    } else if matches_at(text, pattern, from) {
        Some(from)
    } else {
        last_match(text, pattern, from - 1)
    }
}

/// How many places of `text` hold `pattern` when the search goes on, after each, behind its end.
pub open spec fn disjoint_matches(text: Seq<char>, pattern: Seq<char>) -> nat
    decreases text.len(),
{
    if pattern.len() == 0 {
        0
    } else {
        match first_match(text, pattern, 0) {
            None => 0,
            Some(i) => {
                proof {
                    lemma_first_match(text, pattern, 0);
                }
                1 + disjoint_matches(text.skip(i + pattern.len()), pattern)
            },
        }
    }
}

/// The parts of `text` that the places of `delimiter` leave between them, found from the start and
/// without overlap. An empty delimiter stands before, between and behind all characters.
pub open spec fn pieces(text: Seq<char>, delimiter: Seq<char>) -> Seq<Seq<char>>
    decreases text.len(),
{
    if delimiter.len() == 0 {
        seq![Seq::<char>::empty()] + text.map_values(|c: char| seq![c]) + seq![Seq::<char>::empty()]
    } else {
        match first_match(text, delimiter, 0) {
            None => seq![text],
            Some(i) => {
                proof {
                    lemma_first_match(text, delimiter, 0);
                }
                seq![text.take(i)] + pieces(text.skip(i + delimiter.len()), delimiter)
            },
        }
    }
}

/// `first_match` is a match, the first one, and there is none only where nothing matches.
pub proof fn lemma_first_match(text: Seq<char>, pattern: Seq<char>, from: int)
    requires
        0 <= from,
    ensures
        match first_match(text, pattern, from) {
            Some(i) => from <= i && matches_at(text, pattern, i) && forall|j: int|
                from <= j < i ==> !matches_at(text, pattern, j),
            None => forall|j: int| from <= j ==> !matches_at(text, pattern, j),
        },
    decreases text.len() - from + 1,
{
    if from + pattern.len() <= text.len() && !matches_at(text, pattern, from) {
        lemma_first_match(text, pattern, from + 1);
    }
}

/// `last_match` is a match, the last one, and there is none only where nothing matches.
pub proof fn lemma_last_match(text: Seq<char>, pattern: Seq<char>, from: int)
    ensures
        match last_match(text, pattern, from) {
            Some(i) => i <= from && matches_at(text, pattern, i) && forall|j: int|
                i < j <= from ==> !matches_at(text, pattern, j),
            None => forall|j: int| j <= from ==> !matches_at(text, pattern, j),
        },
    decreases from + 1,
{
    if 0 <= from && !matches_at(text, pattern, from) {
        lemma_last_match(text, pattern, from - 1);
    }
}

/// A search in the rest of a text finds what the search in the whole finds behind that point.
proof fn lemma_first_match_skip(text: Seq<char>, pattern: Seq<char>, skipped: int, from: int)
    requires
        0 <= skipped <= text.len(),
        0 <= from,
    ensures
        first_match(text, pattern, skipped + from) == match first_match(
            text.skip(skipped),
            pattern,
            from,
        ) {
            Some(i) => Some(skipped + i),
            None => None,
        },
    decreases text.len() - skipped - from + 1,
{
    let rest = text.skip(skipped);
    if skipped + from + pattern.len() <= text.len() {
        assert(rest.subrange(from, from + pattern.len()) == text.subrange(
            skipped + from,
            skipped + from + pattern.len(),
        ));
        assert(matches_at(rest, pattern, from) == matches_at(text, pattern, skipped + from));
        if !matches_at(rest, pattern, from) {
            lemma_first_match_skip(text, pattern, skipped, from + 1);
        }
    }
}

/// Whether `pattern` stands in `text` at `at`.
pub(crate) fn matches_here(text: &Vec<char>, pattern: &Vec<char>, at: usize) -> (r: bool)
    requires
        at <= text@.len(),
    ensures
        r == matches_at(text@, pattern@, at as int),
{
    let n = text.len();
    let m = pattern.len();
    if m > n - at {
        return false;
    }
    for i in 0..m
        invariant
            n == text@.len(),
            m == pattern@.len(),
            at + m <= n,
            forall|k: int| 0 <= k < i ==> text@[at + k] == pattern@[k],
    {
        if text[at + i] != pattern[i] {
            proof {
                assert(text@.subrange(at as int, at + m)[i as int] == text@[at + i]);
            }
            return false;
        }
    }
    assert(text@.subrange(at as int, at + m) == pattern@);
    true
}

/// The first place, not before `from`, at which `pattern` stands in `text`.
pub(crate) fn find_from(text: &Vec<char>, pattern: &Vec<char>, from: usize) -> (r: Option<usize>)
    requires
        from <= text@.len(),
    ensures
        match r {
            Some(i) => first_match(text@, pattern@, from as int) == Some(i as int),
            None => first_match(text@, pattern@, from as int) is None,
        },
{
    let n = text.len();
    let m = pattern.len();
    let mut at = from;
    while at <= n && m <= n - at
        invariant
            n == text@.len(),
            m == pattern@.len(),
            from <= at <= n + 1,
            from <= n,
            first_match(text@, pattern@, from as int) == first_match(text@, pattern@, at as int),
        decreases n + 1 - at,
    {
        if matches_here(text, pattern, at) {
            return Some(at);
        }
        if at == n {
            assert(first_match(text@, pattern@, n + 1) is None);
            return None;
        }
        at = at + 1;
    }
    None
}

/// The last place at which `pattern` stands in `text`.
pub(crate) fn find_last(text: &Vec<char>, pattern: &Vec<char>) -> (r: Option<usize>)
    ensures
        match r {
            Some(i) => last_match(text@, pattern@, text@.len() - pattern@.len()) == Some(i as int),
            None => last_match(text@, pattern@, text@.len() - pattern@.len()) is None,
        },
{
    if pattern.len() > text.len() {
        return None;
    }
    let mut at = text.len() - pattern.len();
    loop
        invariant
            at <= text@.len() - pattern@.len(),
            last_match(text@, pattern@, text@.len() - pattern@.len()) == last_match(
                text@,
                pattern@,
                at as int,
            ),
        decreases at,
    {
        if matches_here(text, pattern, at) {
            return Some(at);
        }
        if at == 0 {
            assert(last_match(text@, pattern@, -1) is None);
            return None;
        }
        at = at - 1;
    }
}

/// The parts of `text` between the places of `delimiter`.
pub(crate) fn split_pieces(text: &Vec<char>, delimiter: &Vec<char>) -> (r: Vec<String>)
    ensures
        texts(r@) == pieces(text@, delimiter@),
{
    let n = text.len();
    let m = delimiter.len();
    let mut parts: Vec<String> = Vec::new();
    if m == 0 {
        parts.push(String::new());
        for i in 0..n
            invariant
                n == text@.len(),
                parts@.len() == i + 1,
                texts(parts@) == seq![Seq::<char>::empty()] + text@.take(i as int).map_values(
                    |c: char| seq![c],
                ),
        {
            let ghost before = texts(parts@);
            parts.push(string_of(text, i, i + 1));
            proof {
                let single = |c: char| seq![c];
                assert(text@.subrange(i as int, i + 1) == seq![text@[i as int]]);
                assert(texts(parts@) == before.push(seq![text@[i as int]]));
                assert(text@.take(i + 1).map_values(single) == text@.take(i as int).map_values(
                    single,
                ).push(seq![text@[i as int]]));
            }
        }
        parts.push(String::new());
        assert(text@.take(n as int) == text@);
        assert(texts(parts@) == pieces(text@, delimiter@));
        return parts;
    }
    let mut start: usize = 0;
    assert(text@.skip(0) == text@);
    loop
        invariant
            n == text@.len(),
            m == delimiter@.len(),
            0 < m,
            start <= n,
            pieces(text@, delimiter@) == texts(parts@) + pieces(
                text@.skip(start as int),
                delimiter@,
            ),
        decreases n - start,
    {
        let ghost rest = text@.skip(start as int);
        let ghost before = texts(parts@);
        proof {
            lemma_first_match_skip(text@, delimiter@, start as int, 0);
            lemma_first_match(text@, delimiter@, start as int);
        }
        match find_from(text, delimiter, start) {
            Some(i) => {
                parts.push(string_of(text, start, i));
                proof {
                    assert(rest.take(i - start) == text@.subrange(start as int, i as int));
                    assert(rest.skip(i - start + m) == text@.skip(i + m));
                    assert(texts(parts@) == before + seq![rest.take(i - start)]);
                    assert(before + (seq![rest.take(i - start)] + pieces(
                        rest.skip(i - start + m),
                        delimiter@,
                    )) == texts(parts@) + pieces(text@.skip(i + m), delimiter@));
                }
                start = i + m;
            },
            None => {
                parts.push(string_of(text, start, n));
                proof {
                    assert(rest == text@.subrange(start as int, n as int));
                    assert(texts(parts@) == before + seq![rest]);
                }
                return parts;
            },
        }
    }
}

/// How many places of `text` hold `pattern` when the search goes on, after each, behind its end.
pub(crate) fn count_disjoint(text: &Vec<char>, pattern: &Vec<char>) -> (r: usize)
    requires
        0 < pattern@.len(),
    ensures
        r == disjoint_matches(text@, pattern@),
{
    let n = text.len();
    let m = pattern.len();
    let mut start: usize = 0;
    let mut count: usize = 0;
    assert(text@.skip(0) == text@);
    loop
        invariant
            n == text@.len(),
            m == pattern@.len(),
            0 < m,
            count <= start <= n,
            disjoint_matches(text@, pattern@) == count + disjoint_matches(
                text@.skip(start as int),
                pattern@,
            ),
        decreases n - start,
    {
        let ghost rest = text@.skip(start as int);
        proof {
            lemma_first_match_skip(text@, pattern@, start as int, 0);
            lemma_first_match(text@, pattern@, start as int);
        }
        match find_from(text, pattern, start) {
            Some(i) => {
                assert(rest.skip(i - start + m) == text@.skip(i + m));
                count = count + 1;
                start = i + m;
            },
            None => {
                return count;
            },
        }
    }
}

/// The first of several parts can be split off a joined text.
pub(crate) proof fn lemma_joined_front(first: Seq<char>, rest: Seq<Seq<char>>, separator: Seq<char>)
    requires
        0 < rest.len(),
    ensures
        joined(seq![first] + rest, separator) == first + separator + joined(rest, separator),
    decreases rest.len(),
{
    let all = seq![first] + rest;
    if rest.len() == 1 {
        assert(all.drop_last() == seq![first]);
        assert(joined(seq![first], separator) == first);
        assert(joined(all, separator) == joined(all.drop_last(), separator) + separator + rest[0]);
    } else {
        assert(all.drop_last() == seq![first] + rest.drop_last());
        assert(all.last() == rest.last());
        lemma_joined_front(first, rest.drop_last(), separator);
        assert(first + separator + joined(rest.drop_last(), separator) + separator + rest.last()
            == first + separator + (joined(rest.drop_last(), separator) + separator
            + rest.last()));
    }
}

/// With nothing between them, joined parts are the parts one after another.
pub(crate) proof fn lemma_joined_empty(parts: Seq<Seq<char>>)
    ensures
        joined(parts, Seq::empty()) == parts.flatten(),
    decreases parts.len(),
{
    if parts.len() == 1 {
        parts.lemma_flatten_one_element();
    } else if parts.len() > 1 {
        lemma_joined_empty(parts.drop_last());
        assert(parts.drop_last().push(parts.last()) == parts);
        parts.drop_last().lemma_flatten_push(parts.last());
        assert(joined(parts.drop_last(), Seq::empty()) + Seq::<char>::empty() + parts.last()
            == joined(parts.drop_last(), Seq::empty()) + parts.last());
    }
}

/// Joining what a delimiter split, with that delimiter, gives the text back: whatever the text and
/// the delimiter are, the empty delimiter among them.
pub proof fn lemma_join_of_split(text: Seq<char>, delimiter: Seq<char>)
    ensures
        joined(pieces(text, delimiter), delimiter) == text,
    decreases text.len(),
{
    if delimiter.len() == 0 {
        assert(delimiter == Seq::<char>::empty());
        let parts = pieces(text, delimiter);
        let none = seq![Seq::<char>::empty()];
        let chars = text.map_values(|c: char| seq![c]);
        lemma_joined_empty(parts);
        vstd::seq_lib::lemma_flatten_concat(none + chars, none);
        vstd::seq_lib::lemma_flatten_concat(none, chars);
        none.lemma_flatten_one_element();
        lemma_flatten_chars(text);
        assert(Seq::<char>::empty() + text + Seq::<char>::empty() == text);
    } else {
        lemma_first_match(text, delimiter, 0);
        match first_match(text, delimiter, 0) {
            None => {},
            Some(i) => {
                let rest = text.skip(i + delimiter.len());
                lemma_join_of_split(rest, delimiter);
                lemma_pieces_nonempty(rest, delimiter);
                lemma_joined_front(text.take(i), pieces(rest, delimiter), delimiter);
                assert(text.take(i) + delimiter + rest == text);
            },
        }
    }
}

/// A split always yields a part.
pub proof fn lemma_pieces_nonempty(text: Seq<char>, delimiter: Seq<char>)
    ensures
        0 < pieces(text, delimiter).len(),
{
    lemma_first_match(text, delimiter, 0);
}

/// Whether a split finds again, in the joined text, exactly the separators that a join put there.
/// A separator's own match must not begin earlier, inside the part before it, nor may the last part
/// hold one; with nothing for a separator, the parts are single characters between two empty ends.
pub open spec fn separable(parts: Seq<Seq<char>>, separator: Seq<char>) -> bool {
    if separator.len() == 0 {
        &&& 2 <= parts.len()
        &&& parts[0].len() == 0
        &&& parts.last().len() == 0
        &&& forall|k: int| 0 < k < parts.len() - 1 ==> (#[trigger] parts[k]).len() == 1
    } else {
        &&& 0 < parts.len()
        &&& forall|k: int, i: int|
            #![trigger matches_at(parts[k] + separator, separator, i)]
            0 <= k < parts.len() - 1 && 0 <= i < parts[k].len() ==> !matches_at(
                parts[k] + separator,
                separator,
                i,
            )
        &&& !contains_text(parts.last(), separator)
    }
}

/// Splitting what a separator joined, with that separator, gives the parts back, exactly for the
/// parts that the separator keeps apart.
pub proof fn lemma_split_of_join(parts: Seq<Seq<char>>, separator: Seq<char>)
    ensures
        pieces(joined(parts, separator), separator) == parts <==> separable(parts, separator),
    decreases parts.len(),
{
    let text = joined(parts, separator);
    if separator.len() == 0 {
        lemma_split_of_concatenation(parts);
        assert(separator == Seq::<char>::empty());
    } else if parts.len() == 0 {
        lemma_pieces_nonempty(text, separator);
    } else if parts.len() == 1 {
        lemma_first_match(text, separator, 0);
        match first_match(text, separator, 0) {
            None => {
                assert(pieces(text, separator) == parts);
            },
            Some(i) => {
                assert(matches_at(text, separator, i));
                lemma_pieces_nonempty(text.skip(i + separator.len()), separator);
            },
        }
    } else {
        let first = parts[0];
        let rest = parts.skip(1);
        let m = separator.len() as int;
        assert(parts == seq![first] + rest);
        lemma_joined_front(first, rest, separator);
        lemma_first_match(text, separator, 0);
        assert(text.subrange(first.len() as int, first.len() + m) == separator);
        assert(matches_at(text, separator, first.len() as int));
        let found = first_match(text, separator, 0)->0;
        // The first part with its separator is how the text begins, so it matches where the text does.
        assert forall|i: int| 0 <= i <= first.len() implies matches_at(text, separator, i)
            == matches_at(first + separator, separator, i) by {
            assert(text.subrange(i, i + m) == (first + separator).subrange(i, i + m));
        }
        assert(pieces(text, separator) == seq![text.take(found)] + pieces(
            text.skip(found + m),
            separator,
        ));
        lemma_split_of_join(rest, separator);
        assert(rest.last() == parts.last());
        if separable(parts, separator) {
            if found < first.len() {
                assert(!matches_at(parts[0] + separator, separator, found));
            }
            assert(text.take(found) == first);
            assert(text.skip(found + m) == joined(rest, separator));
            assert forall|k: int, i: int|
                #![trigger matches_at(rest[k] + separator, separator, i)]
                0 <= k < rest.len() - 1 && 0 <= i < rest[k].len() implies !matches_at(
                rest[k] + separator,
                separator,
                i,
            ) by {
                assert(rest[k] == parts[k + 1]);
                assert(!matches_at(parts[k + 1] + separator, separator, i));
            }
        }
        if pieces(text, separator) == parts {
            assert(text.take(found) == parts[0]);
            assert(found == first.len());
            assert(text.skip(found + m) == joined(rest, separator));
            assert(pieces(text.skip(found + m), separator) == pieces(text, separator).skip(1));
            assert forall|k: int, i: int|
                #![trigger matches_at(parts[k] + separator, separator, i)]
                0 <= k < parts.len() - 1 && 0 <= i < parts[k].len() implies !matches_at(
                parts[k] + separator,
                separator,
                i,
            ) by {
                if k > 0 {
                    assert(parts[k] == rest[k - 1]);
                    assert(!matches_at(rest[k - 1] + separator, separator, i));
                } else {
                    assert(!matches_at(text, separator, i));
                }
            }
        }
    }
}

/// The same for parts joined with nothing between them.
proof fn lemma_split_of_concatenation(parts: Seq<Seq<char>>)
    ensures
        pieces(joined(parts, Seq::empty()), Seq::empty()) == parts <==> separable(
            parts,
            Seq::empty(),
        ),
{
    let none = Seq::<char>::empty();
    let text = joined(parts, none);
    let single = |c: char| seq![c];
    let split = pieces(text, none);
    assert(split == seq![none] + text.map_values(single) + seq![none]);
    lemma_joined_empty(parts);
    if separable(parts, none) {
        let middle = parts.subrange(1, parts.len() - 1);
        let chars = middle.map_values(|p: Seq<char>| p[0]);
        assert forall|k: int| 0 <= k < middle.len() implies middle[k] == chars.map_values(
            single,
        )[k] by {
            assert(middle[k] == parts[k + 1]);
            assert(parts[k + 1].len() == 1);
            assert(parts[k + 1] == seq![parts[k + 1][0]]);
        }
        assert(middle == chars.map_values(single));
        lemma_flatten_chars(chars);
        assert(parts[0] == none && parts.last() == none);
        assert(parts == seq![none] + middle + seq![none]);
        vstd::seq_lib::lemma_flatten_concat(seq![none] + middle, seq![none]);
        vstd::seq_lib::lemma_flatten_concat(seq![none], middle);
        seq![none].lemma_flatten_one_element();
        assert(none + chars + none == chars);
        assert(text == chars);
    }
    if split == parts {
        assert forall|k: int| 0 < k < parts.len() - 1 implies (#[trigger] parts[k]).len() == 1 by {
            assert(split[k] == text.map_values(single)[k - 1]);
        }
        assert(split[0] == none);
        assert(split.last() == none);
    }
}

} // verus!
