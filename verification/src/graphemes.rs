//! Text taken apart into the characters that a reader sees: its extended grapheme clusters.

use crate::text::{concatenated, texts};
use unicode_segmentation::UnicodeSegmentation;
use vstd::prelude::*;

verus! {

/// The extended grapheme clusters of a text.
pub uninterp spec fn grapheme_clusters(text: Seq<char>) -> Seq<Seq<char>>;

/// Whether a text holds nothing but the printable characters of ASCII, the space among them.
pub open spec fn printable_ascii(text: Seq<char>) -> bool {
    forall|i: int| 0 <= i < text.len() ==> ' ' <= #[trigger] text[i] <= '~'
}

/// `UnicodeSegmentation::graphemes`, for extended clusters. The clusters are a function of the text;
/// none of them is empty, and one after another they are the text. Two printable characters of ASCII
/// never belong to one cluster.
#[verifier::external_body]
pub(crate) fn graphemes(text: &str) -> (r: Vec<String>)
    ensures
        texts(r@) == grapheme_clusters(text@),
        texts(r@).flatten() == text@,
        forall|i: int| 0 <= i < r@.len() ==> 0 < (#[trigger] r@[i]@).len(),
        printable_ascii(text@) ==> texts(r@) == text@.map_values(|c: char| seq![c]),
{
    text.graphemes(true).map(|cluster| cluster.to_string()).collect()
}

/// Where no character is empty there are no more of them than the text has `char`s, and none only in an
/// empty text.
pub proof fn lemma_cluster_count(clusters: Seq<Seq<char>>)
    requires
        forall|i: int| 0 <= i < clusters.len() ==> 0 < (#[trigger] clusters[i]).len(),
    ensures
        clusters.len() <= clusters.flatten().len(),
        clusters.len() == 0 <==> clusters.flatten().len() == 0,
    decreases clusters.len(),
{
    if clusters.len() > 0 {
        let front = clusters.drop_last();
        assert forall|i: int| 0 <= i < front.len() implies 0 < (#[trigger] front[i]).len() by {
            assert(front[i] == clusters[i]);
        }
        lemma_cluster_count(front);
        assert(clusters == front.push(clusters.last()));
        front.lemma_flatten_push(clusters.last());
    }
}

/// A signed position among the characters of a text, of a size rounded towards zero. A negative
/// position counts from the end, whatever its size rounds to.
#[derive(Clone, Copy, Debug, PartialEq, Eq)]
pub enum SignedIndex {
    Negative(usize),
    Zero,
    Positive(usize),
}

/// The place among `total` characters that a position leads to. Only a negative one counts from the
/// end.
pub open spec fn slice_place(total: nat, position: SignedIndex) -> nat {
    match position {
        SignedIndex::Negative(size) => if size <= total {
            (total - size) as nat
        } else {
            0
        },
        SignedIndex::Zero => 0,
        SignedIndex::Positive(size) => if size <= total {
            size as nat
        } else {
            total
        },
    }
}

/// The characters of a text from `start` up to `end`; none where `start` does not come before `end`.
pub open spec fn slice_text(
    clusters: Seq<Seq<char>>,
    start: SignedIndex,
    end: SignedIndex,
) -> Seq<char> {
    let from = slice_place(clusters.len(), start) as int;
    let to = slice_place(clusters.len(), end) as int;
    if from >= to {
        Seq::empty()
    } else {
        clusters.subrange(from, to).flatten()
    }
}

/// The place among `total` characters that a position leads to.
fn find_place(total: usize, position: SignedIndex) -> (r: usize)
    ensures
        r == slice_place(total as nat, position),
{
    match position {
        SignedIndex::Negative(size) => total.saturating_sub(size),
        SignedIndex::Zero => 0,
        SignedIndex::Positive(size) => if size < total {
            size
        } else {
            total
        },
    }
}

/// The characters from `start` up to `end`, of a text taken apart.
pub fn slice_clusters(clusters: &Vec<String>, start: SignedIndex, end: SignedIndex) -> (r: String)
    ensures
        r@ == slice_text(texts(clusters@), start, end),
{
    let total = clusters.len();
    let from = find_place(total, start);
    let to = find_place(total, end);
    if from >= to {
        String::new()
    } else {
        concatenated(clusters, from, to)
    }
}

/// How many characters of a suffix fit into `max_length`.
pub open spec fn suffix_length(suffix: Seq<Seq<char>>, max_length: nat) -> nat {
    if suffix.len() <= max_length {
        suffix.len()
    } else {
        max_length
    }
}

/// `text`, of the given clusters, clipped to `max_length` characters, the last of which are those of
/// the suffix. A text within the limit is not modified.
pub open spec fn truncated(
    text: Seq<char>,
    clusters: Seq<Seq<char>>,
    suffix: Seq<Seq<char>>,
    max_length: nat,
) -> Seq<char> {
    if clusters.len() <= max_length {
        text
    } else {
        let shown = suffix_length(suffix, max_length);
        clusters.take(max_length - shown).flatten() + suffix.take(shown as int).flatten()
    }
}

/// `text`, of the given clusters, clipped to `max_length` characters with the suffix.
pub fn truncate_clusters(
    text: String,
    clusters: &Vec<String>,
    suffix: &Vec<String>,
    max_length: usize,
) -> (r: String)
    ensures
        r@ == truncated(text@, texts(clusters@), texts(suffix@), max_length as nat),
{
    if clusters.len() <= max_length {
        return text;
    }
    let shown = if suffix.len() <= max_length {
        suffix.len()
    } else {
        max_length
    };
    let keep = max_length - shown;
    let mut result = concatenated(clusters, 0, keep);
    result.append(concatenated(suffix, 0, shown).as_str());
    result
}

/// The clusters, last one first, put one after another.
pub fn reverse_clusters(clusters: &Vec<String>) -> (r: String)
    ensures
        r@ == texts(clusters@).reverse().flatten(),
{
    let n = clusters.len();
    let mut result = String::new();
    let ghost reversed = texts(clusters@).reverse();
    assert(reversed.take(0) == Seq::<Seq<char>>::empty());
    for i in 0..n
        invariant
            n == clusters@.len(),
            reversed == texts(clusters@).reverse(),
            result@ == reversed.take(i as int).flatten(),
    {
        result.append(clusters[n - 1 - i].as_str());
        proof {
            assert(reversed.take(i + 1) == reversed.take(i as int).push(clusters@[n - 1 - i]@));
            reversed.take(i as int).lemma_flatten_push(clusters@[n - 1 - i]@);
        }
    }
    assert(reversed.take(n as int) == reversed);
    result
}

/// `length` characters of `padding`, taken in turn and over again.
pub open spec fn repeated(padding: Seq<Seq<char>>, length: nat) -> Seq<Seq<char>> {
    Seq::new(length, |i: int| padding[i % (padding.len() as int)])
}

/// `text`, of which a part `current` characters long is to become `target` characters long, with as
/// much padding as that takes before or behind it.
pub open spec fn padded(
    text: Seq<char>,
    current: nat,
    target: nat,
    padding: Seq<Seq<char>>,
    from_end: bool,
) -> Seq<char> {
    if current >= target {
        text
    } else if from_end {
        text + repeated(padding, (target - current) as nat).flatten()
    } else {
        repeated(padding, (target - current) as nat).flatten() + text
    }
}

/// Pads `text`, of which a part is `current` characters long, until that part is `target`.
pub fn pad_clusters(
    text: String,
    current: usize,
    target: usize,
    padding: &Vec<String>,
    from_end: bool,
) -> (r: String)
    requires
        0 < padding@.len(),
    ensures
        r@ == padded(text@, current as nat, target as nat, texts(padding@), from_end),
{
    if current >= target {
        return text;
    }
    let length = target - current;
    let p = padding.len();
    let mut fill = String::new();
    let ghost all = repeated(texts(padding@), length as nat);
    assert(all.take(0) == Seq::<Seq<char>>::empty());
    for i in 0..length
        invariant
            p == padding@.len(),
            0 < p,
            all == repeated(texts(padding@), length as nat),
            fill@ == all.take(i as int).flatten(),
    {
        let k = i % p;
        fill.append(padding[k].as_str());
        proof {
            assert(all.take(i + 1) == all.take(i as int).push(padding@[k as int]@));
            all.take(i as int).lemma_flatten_push(padding@[k as int]@);
        }
    }
    assert(all.take(length as int) == all);
    if from_end {
        let mut result = text;
        result.append(fill.as_str());
        result
    } else {
        fill.append(text.as_str());
        fill
    }
}

/// A slice from the start to the length or behind it is the whole text, and a text cut at a character
/// is the slice before it followed by the slice from it on.
pub proof fn lemma_slices(clusters: Seq<Seq<char>>, at: usize, end: usize)
    requires
        clusters.len() <= end,
    ensures
        slice_text(clusters, SignedIndex::Zero, SignedIndex::Positive(end)) == clusters.flatten(),
        slice_text(clusters, SignedIndex::Zero, SignedIndex::Positive(at)) + slice_text(
            clusters,
            SignedIndex::Positive(at),
            SignedIndex::Positive(end),
        ) == clusters.flatten(),
{
    let n = clusters.len() as int;
    let k = if at <= n {
        at as int
    } else {
        n
    };
    assert(clusters.subrange(0, n) == clusters);
    assert(clusters.subrange(0, k) + clusters.subrange(k, n) == clusters);
    vstd::seq_lib::lemma_flatten_concat(clusters.subrange(0, k), clusters.subrange(k, n));
    assert(clusters.subrange(n, n) == Seq::<Seq<char>>::empty());
    assert(clusters.subrange(0, 0) == Seq::<Seq<char>>::empty());
}

/// A slice is empty where the place of its start equals or exceeds that of its end; so one that ends
/// at zero is.
pub proof fn lemma_empty_slices(clusters: Seq<Seq<char>>, start: SignedIndex, end: SignedIndex)
    ensures
        slice_place(clusters.len(), start) >= slice_place(clusters.len(), end) ==> slice_text(
            clusters,
            start,
            end,
        ).len() == 0,
        slice_text(clusters, start, SignedIndex::Zero).len() == 0,
{
}

/// Single characters one after another are the text they come from.
pub(crate) proof fn lemma_flatten_chars(text: Seq<char>)
    ensures
        text.map_values(|c: char| seq![c]).flatten() == text,
    decreases text.len(),
{
    let single = |c: char| seq![c];
    if text.len() > 0 {
        lemma_flatten_chars(text.drop_last());
        assert(text.map_values(single) == text.drop_last().map_values(single).push(
            seq![text.last()],
        ));
        text.drop_last().map_values(single).lemma_flatten_push(seq![text.last()]);
        assert(text.drop_last() + seq![text.last()] == text);
    }
}

/// Where every character is a `char` of its own, a slice is the part of the text between its places.
pub proof fn lemma_slice_of_chars(text: Seq<char>, start: SignedIndex, end: SignedIndex)
    ensures
        ({
            let from = slice_place(text.len(), start) as int;
            let to = slice_place(text.len(), end) as int;
            slice_text(text.map_values(|c: char| seq![c]), start, end) == if from >= to {
                Seq::empty()
            } else {
                text.subrange(from, to)
            }
        }),
{
    let single = |c: char| seq![c];
    let from = slice_place(text.len(), start) as int;
    let to = slice_place(text.len(), end) as int;
    if from < to {
        assert(text.map_values(single).subrange(from, to) == text.subrange(from, to).map_values(
            single,
        ));
        lemma_flatten_chars(text.subrange(from, to));
    }
}

/// An index counted from the end is the one counted from the start that it leads to.
pub proof fn lemma_negative_index(clusters: Seq<Seq<char>>, size: usize, other: SignedIndex)
    requires
        size < clusters.len() <= usize::MAX,
    ensures
        ({
            let at = SignedIndex::Positive((clusters.len() - size) as usize);
            &&& slice_text(clusters, SignedIndex::Negative(size), other) == slice_text(
                clusters,
                at,
                other,
            )
            &&& slice_text(clusters, other, SignedIndex::Negative(size)) == slice_text(
                clusters,
                other,
                at,
            )
        }),
{
}

/// A clipped text is made up of exactly as many characters as allowed, the first of them those of the
/// text and the last those of the suffix.
pub proof fn lemma_truncated(
    text: Seq<char>,
    clusters: Seq<Seq<char>>,
    suffix: Seq<Seq<char>>,
    max_length: nat,
)
    requires
        max_length < clusters.len(),
    ensures
        ({
            let shown = suffix_length(suffix, max_length) as int;
            let parts = clusters.take(max_length - shown) + suffix.take(shown);
            &&& truncated(text, clusters, suffix, max_length) == parts.flatten()
            &&& parts.len() == max_length
        }),
{
    let shown = suffix_length(suffix, max_length) as int;
    vstd::seq_lib::lemma_flatten_concat(clusters.take(max_length - shown), suffix.take(shown));
}

/// Reversing the characters of a text twice gives the text back, and reversing them once keeps them
/// all.
pub proof fn lemma_reverse(clusters: Seq<Seq<char>>)
    ensures
        clusters.reverse().reverse() == clusters,
        clusters.reverse().flatten().len() == clusters.flatten().len(),
    decreases clusters.len(),
{
    assert(clusters.reverse().reverse() == clusters);
    if clusters.len() > 0 {
        let rest = clusters.drop_last();
        let last = clusters.last();
        lemma_reverse(rest);
        assert(clusters == rest.push(last));
        rest.lemma_flatten_push(last);
        assert(clusters.reverse() == seq![last] + rest.reverse());
        vstd::seq_lib::lemma_flatten_concat(seq![last], rest.reverse());
        seq![last].lemma_flatten_one_element();
    }
}

/// The characters of the padding that a part `current` characters long lacks.
pub open spec fn fill(padding: Seq<Seq<char>>, current: nat, target: nat) -> Seq<Seq<char>> {
    if current < target {
        repeated(padding, (target - current) as nat)
    } else {
        Seq::empty()
    }
}

/// A padded text is the text with, before or behind it, as many characters of the padding as the
/// measured part lacked, taken in turn; a part that is long enough lacks none.
pub proof fn lemma_padded(
    text: Seq<char>,
    current: nat,
    target: nat,
    padding: Seq<Seq<char>>,
    from_end: bool,
)
    requires
        0 < padding.len(),
    ensures
        padded(text, current, target, padding, from_end) == if from_end {
            text + fill(padding, current, target).flatten()
        } else {
            fill(padding, current, target).flatten() + text
        },
        current + fill(padding, current, target).len() == if current < target {
            target
        } else {
            current
        },
        forall|i: int|
            0 <= i < fill(padding, current, target).len() ==> #[trigger] fill(
                padding,
                current,
                target,
            )[i] == padding[i % (padding.len() as int)],
{
    if current >= target {
        assert(text + Seq::<Seq<char>>::empty().flatten() == text);
        assert(Seq::<Seq<char>>::empty().flatten() + text == text);
    }
}

/// Where every character is a `char` of its own, a clipped text is the first `char`s of the text and of
/// the suffix.
pub(crate) proof fn lemma_truncated_chars(text: Seq<char>, suffix: Seq<char>, max_length: nat)
    ensures
        ({
            let shown = if suffix.len() <= max_length {
                suffix.len() as int
            } else {
                max_length as int
            };
            truncated(
                text,
                text.map_values(|c: char| seq![c]),
                suffix.map_values(|c: char| seq![c]),
                max_length,
            ) == if text.len() <= max_length {
                text
            } else {
                text.take(max_length - shown) + suffix.take(shown)
            }
        }),
{
    let single = |c: char| seq![c];
    if text.len() > max_length {
        let shown = if suffix.len() <= max_length {
            suffix.len() as int
        } else {
            max_length as int
        };
        let keep = max_length - shown;
        assert(text.map_values(single).take(keep) == text.take(keep).map_values(single));
        assert(suffix.map_values(single).take(shown) == suffix.take(shown).map_values(single));
        lemma_flatten_chars(text.take(keep));
        lemma_flatten_chars(suffix.take(shown));
    }
}

/// Where every character is a `char` of its own, characters taken in turn are `char`s taken in turn.
pub(crate) proof fn lemma_repeated_chars(padding: Seq<char>, length: nat)
    requires
        0 < padding.len(),
    ensures
        repeated(padding.map_values(|c: char| seq![c]), length).flatten() == Seq::new(
            length,
            |i: int| padding[i % (padding.len() as int)],
        ),
{
    let single = |c: char| seq![c];
    let chars = Seq::new(length, |i: int| padding[i % (padding.len() as int)]);
    let p = padding.len() as int;
    assert forall|i: int| 0 <= i < length implies #[trigger] repeated(
        padding.map_values(single),
        length,
    )[i] == chars.map_values(single)[i] by {
        vstd::arithmetic::div_mod::lemma_mod_bound(i, p);
    }
    assert(repeated(padding.map_values(single), length) == chars.map_values(single));
    lemma_flatten_chars(chars);
}

/// A position counts characters from the start, or from the end where it is negative, and never leaves
/// the text: one beyond an end leads to that end.
pub proof fn lemma_places(total: nat, size: usize)
    ensures
        slice_place(total, SignedIndex::Zero) == 0,
        size <= total ==> slice_place(total, SignedIndex::Positive(size)) == size,
        size >= total ==> slice_place(total, SignedIndex::Positive(size)) == total,
        size <= total ==> slice_place(total, SignedIndex::Negative(size)) + size == total,
        size >= total ==> slice_place(total, SignedIndex::Negative(size)) == 0,
{
}

/// A slice is what is left of a text without the characters before the place of its start and those
/// from the place of its end on.
pub proof fn lemma_slice_between(clusters: Seq<Seq<char>>, start: SignedIndex, end: SignedIndex)
    ensures
        ({
            let from = slice_place(clusters.len(), start) as int;
            let to = slice_place(clusters.len(), end) as int;
            let slice = slice_text(clusters, start, end);
            &&& from <= to ==> clusters.take(from).flatten() + slice + clusters.skip(to).flatten()
                == clusters.flatten()
            &&& from >= to ==> slice.len() == 0
        }),
{
    let n = clusters.len() as int;
    let from = slice_place(clusters.len(), start) as int;
    let to = slice_place(clusters.len(), end) as int;
    if from <= to {
        let middle = clusters.subrange(from, to);
        assert(clusters.take(from) + middle + clusters.skip(to) == clusters);
        vstd::seq_lib::lemma_flatten_concat(clusters.take(from) + middle, clusters.skip(to));
        vstd::seq_lib::lemma_flatten_concat(clusters.take(from), middle);
        if from == to {
            assert(middle == Seq::<Seq<char>>::empty());
        }
    }
}

/// A text within the limit is kept. A longer one is clipped to make room for the whole suffix, or, where
/// that alone is too long, gives way to as much of it as is allowed.
pub proof fn lemma_truncation(
    text: Seq<char>,
    clusters: Seq<Seq<char>>,
    suffix: Seq<Seq<char>>,
    max_length: nat,
)
    ensures
        clusters.len() <= max_length ==> truncated(text, clusters, suffix, max_length) == text,
        clusters.len() > max_length && suffix.len() <= max_length ==> truncated(
            text,
            clusters,
            suffix,
            max_length,
        ) == clusters.take(max_length - suffix.len()).flatten() + suffix.flatten(),
        clusters.len() > max_length && suffix.len() > max_length ==> truncated(
            text,
            clusters,
            suffix,
            max_length,
        ) == suffix.take(max_length as int).flatten(),
{
    assert(suffix.take(suffix.len() as int) == suffix);
    if clusters.len() > max_length && suffix.len() > max_length {
        assert(clusters.take(0) == Seq::<Seq<char>>::empty());
    }
}

/// A part that is long enough is not padded. One that is a character short gets one character of the
/// padding, the first; and one more character of length asked for takes one more of the padding, the
/// next in turn, at the end of what is filled in.
pub proof fn lemma_padding_grows(
    text: Seq<char>,
    current: nat,
    target: nat,
    padding: Seq<Seq<char>>,
)
    requires
        0 < padding.len(),
    ensures
        target <= current ==> padded(text, current, target, padding, true) == text && padded(
            text,
            current,
            target,
            padding,
            false,
        ) == text,
        target >= current ==> padded(text, current, target + 1, padding, true) == padded(
            text,
            current,
            target,
            padding,
            true,
        ) + padding[(target - current) % (padding.len() as int)],
        target >= current ==> exists|filled: Seq<char>|
            padded(text, current, target, padding, false) == #[trigger] (filled + text) && padded(
                text,
                current,
                target,
                padding,
                true,
            ) == text + filled,
{
    if target >= current {
        let n = (target - current) as nat;
        let fill = repeated(padding, n);
        let longer = repeated(padding, n + 1);
        let next = padding[n as int % (padding.len() as int)];
        assert(longer == fill.push(next));
        fill.lemma_flatten_push(next);
        let filled = fill.flatten();
        assert(text + (filled + next) == text + filled + next);
        if n == 0 {
            assert(fill == Seq::<Seq<char>>::empty());
            assert(filled == Seq::<char>::empty());
            assert(text + filled == text);
            assert(filled + text == text);
        }
        assert(padded(text, current, target, padding, false) == filled + text);
        assert(padded(text, current, target, padding, true) == text + filled);
    }
}

} // verus!
