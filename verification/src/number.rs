//! Numbers shown as strings, and strings read as numbers.

use crate::item::Item;
use crate::search::{find_from, first_match, lemma_first_match};
use crate::strings::{trim_text, trimmed};
use crate::text::{chars_of, join, joined, string_of, texts};
use vstd::prelude::*;
use vstd::utf8::encode_utf8;

verus! {

/// A number written with a fixed amount of decimal places.
pub struct Rendering {
    /// The number as written.
    pub text: String,
    /// Whether the text, read back, is the number again.
    pub round_trips: bool,
}

/// A number, by how it is written.
pub struct RenderedNumber {
    /// Whether the number is zero.
    pub is_zero: bool,
    /// How often the number can be divided by ten before it is smaller than ten, as far as an
    /// integer can say.
    pub magnitude: usize,
    /// The number written with as many decimal places as each one's index says.
    pub renderings: Vec<Rendering>,
}

/// The most digits that a number is written with before what is left of it is noise.
pub const MAX_DIGITS: usize = 17;

impl RenderedNumber {
    /// How many digits the number has before the decimal point.
    pub open spec fn whole_digits(self) -> nat {
        if self.is_zero {
            1
        } else if self.magnitude < usize::MAX {
            (self.magnitude + 1) as nat
        } else {
            usize::MAX as nat
        }
    }

    /// The most decimal places that can carry meaning.
    pub open spec fn places_bound(self) -> nat {
        if self.whole_digits() <= MAX_DIGITS {
            (MAX_DIGITS - self.whole_digits()) as nat
        } else {
            0
        }
    }

    /// Whether the number is written with every amount of decimal places that can carry meaning.
    pub open spec fn well_formed(self) -> bool {
        self.places_bound() < self.renderings@.len()
    }

    /// The fewest decimal places, `p` or more, with which the number is written in full.
    pub open spec fn meaningful_places(self, p: nat) -> nat
        decreases self.places_bound() - p,
    {
        if p >= self.places_bound() {
            self.places_bound()
        } else if self.renderings@[p as int].round_trips {
            p
        } else {
            self.meaningful_places(p + 1)
        }
    }

    /// How many decimal places the number is written with where `requested` are asked for.
    pub open spec fn shown_places(self, requested: nat) -> nat {
        if requested <= self.meaningful_places(0) {
            requested
        } else {
            self.meaningful_places(0)
        }
    }

    /// The most decimal places that can carry meaning.
    fn bound_places(&self) -> (r: usize)
        ensures
            r == self.places_bound(),
    {
        let whole_digits = if self.is_zero {
            1
        } else {
            self.magnitude.saturating_add(1)
        };
        MAX_DIGITS.saturating_sub(whole_digits)
    }

    /// How many decimal places the number is written with where `requested` are asked for.
    pub fn places(&self, requested: usize) -> (r: usize)
        requires
            self.well_formed(),
        ensures
            r == self.shown_places(requested as nat),
            r < self.renderings@.len(),
    {
        let bound = self.bound_places();
        let mut p: usize = 0;
        while p < bound && !self.renderings[p].round_trips
            invariant
                self.well_formed(),
                bound == self.places_bound(),
                p <= bound,
                self.meaningful_places(0) == self.meaningful_places(p as nat),
            decreases bound - p,
        {
            p = p + 1;
        }
        if requested <= p {
            requested
        } else {
            p
        }
    }
}

/// As many zeros as `count`.
pub open spec fn zeros(count: nat) -> Seq<char> {
    Seq::new(count, |i: int| '0')
}

/// The sign that a written number starts with: a minus or nothing.
pub open spec fn sign_of(text: Seq<char>) -> Seq<char> {
    if text.len() > 0 && text[0] == '-' {
        seq!['-']
    } else {
        Seq::empty()
    }
}

/// A written number without its sign.
pub open spec fn unsigned(text: Seq<char>) -> Seq<char> {
    text.skip(sign_of(text).len() as int)
}

/// The digits of a written number before the decimal point.
pub open spec fn whole_part(text: Seq<char>) -> Seq<char> {
    match first_match(unsigned(text), seq!['.'], 0) {
        Some(i) => unsigned(text).take(i),
        None => unsigned(text),
    }
}

/// The digits of a written number behind the decimal point, where it has one.
pub open spec fn decimal_part(text: Seq<char>) -> Option<Seq<char>> {
    match first_match(unsigned(text), seq!['.'], 0) {
        Some(i) => Some(unsigned(text).skip(i + 1)),
        None => None,
    }
}

/// Digits in groups of three, counted from the end.
pub open spec fn groups(digits: Seq<char>) -> Seq<Seq<char>>
    decreases digits.len(),
{
    if digits.len() <= 3 {
        seq![digits]
    } else {
        groups(digits.take(digits.len() - 3)).push(digits.skip(digits.len() - 3))
    }
}

/// `digits` without the zeros they end with.
pub open spec fn without_trailing_zeros(digits: Seq<char>) -> Seq<char>
    decreases digits.len(),
{
    if digits.len() > 0 && digits.last() == '0' {
        without_trailing_zeros(digits.drop_last())
    } else {
        digits
    }
}

/// How a number is to be shown.
pub struct NumberFormat {
    /// The digits to show behind the decimal point.
    pub decimal_places: usize,
    /// What stands for the decimal point.
    pub decimal_separator: String,
    /// Whether all the decimal places are shown, trailing zeros too.
    pub fixed_decimals: bool,
    /// Whether digits are grouped.
    pub use_thousands_separator: bool,
    /// What stands between groups of digits.
    pub thousands_separator: String,
    /// Whether numbers of four digits are not grouped.
    pub start_at_10000: bool,
}

impl NumberFormat {
    /// The digits before the decimal point, grouped where that is asked for.
    pub open spec fn shown_whole(self, whole: Seq<char>) -> Seq<char> {
        if !self.use_thousands_separator || self.thousands_separator@.len() == 0 || (
        self.start_at_10000 && encode_utf8(whole).len() <= 4) {
            whole
        } else {
            joined(groups(whole), self.thousands_separator@)
        }
    }

    /// The digits behind the decimal point, of a number written with `places` of them, or nothing
    /// where neither those nor a decimal point are shown.
    pub open spec fn shown_decimals(self, decimals: Option<Seq<char>>, places: nat) -> Option<
        Seq<char>,
    > {
        match decimals {
            None => if self.fixed_decimals && self.decimal_places > 0 {
                Some(zeros(self.decimal_places as nat))
            } else {
                None
            },
            Some(digits) => {
                let filled = if self.decimal_places > places {
                    digits + zeros((self.decimal_places - places) as nat)
                } else {
                    digits
                };
                if self.fixed_decimals {
                    Some(filled)
                } else if without_trailing_zeros(filled).len() == 0 {
                    None
                } else {
                    Some(without_trailing_zeros(filled))
                }
            },
        }
    }

    /// How a number is shown that was written with `places` decimal places.
    pub open spec fn shown(self, text: Seq<char>, places: nat) -> Seq<char> {
        let before = sign_of(text) + self.shown_whole(whole_part(text));
        match self.shown_decimals(decimal_part(text), places) {
            Some(digits) => before + self.decimal_separator@ + digits,
            None => before,
        }
    }

    /// The digits before the decimal point, grouped where that is asked for.
    fn show_whole(&self, whole: String) -> (r: String)
        ensures
            r@ == self.shown_whole(whole@),
    {
        if !self.use_thousands_separator || self.thousands_separator.as_str().is_empty() || (
        self.start_at_10000 && whole.as_str().as_bytes().len() <= 4) {
            whole
        } else {
            join(&group_digits(&chars_of(whole.as_str())), self.thousands_separator.as_str())
        }
    }

    /// The digits behind the decimal point, or nothing where none are shown.
    fn show_decimals(&self, decimals: Option<String>, places: usize) -> (r: Option<String>)
        ensures
            match self.shown_decimals(
                (match decimals {
                    Some(digits) => Some(digits@),
                    None => None,
                }),
                places as nat,
            ) {
                Some(digits) => r matches Some(shown) && shown@ == digits,
                None => r is None,
            },
    {
        match decimals {
            None => if self.fixed_decimals && self.decimal_places > 0 {
                let mut filled = String::new();
                push_zeros(&mut filled, self.decimal_places);
                assert(filled@ == zeros(self.decimal_places as nat));
                Some(filled)
            } else {
                None
            },
            Some(digits) => {
                let mut filled = digits;
                if self.decimal_places > places {
                    push_zeros(&mut filled, self.decimal_places - places);
                }
                if self.fixed_decimals {
                    Some(filled)
                } else {
                    let trimmed = trim_zeros(filled.as_str());
                    if trimmed.as_str().is_empty() {
                        None
                    } else {
                        Some(trimmed)
                    }
                }
            },
        }
    }

    /// Shows a number that was written with `places` decimal places.
    pub fn show(&self, text: &str, places: usize) -> (r: String)
        ensures
            r@ == self.shown(text@, places as nat),
    {
        let chars = chars_of(text);
        let n = chars.len();
        let negative = n > 0 && chars[0] == '-';
        let from: usize = if negative {
            1
        } else {
            0
        };
        let rest = chars_of(string_of(&chars, from, n).as_str());
        let m = rest.len();
        let mut point: Vec<char> = Vec::new();
        point.push('.');
        proof {
            assert(sign_of(text@).len() == from);
            assert(rest@ == unsigned(text@));
            assert(point@ == seq!['.']);
            lemma_first_match(rest@, point@, 0);
        }
        let (whole, decimals) = match find_from(&rest, &point, 0) {
            Some(i) => {
                assert(rest@.take(i as int) == rest@.subrange(0, i as int));
                assert(rest@.skip(i + 1) == rest@.subrange(i + 1, m as int));
                (string_of(&rest, 0, i), Some(string_of(&rest, i + 1, m)))
            },
            None => {
                assert(rest@ == rest@.subrange(0, m as int));
                (string_of(&rest, 0, m), None)
            },
        };
        let mut result = String::new();
        if negative {
            result.push('-');
        }
        assert(result@ == sign_of(text@));
        result.append(self.show_whole(whole).as_str());
        match self.show_decimals(decimals, places) {
            Some(digits) => {
                result.append(self.decimal_separator.as_str());
                result.append(digits.as_str());
            },
            None => {},
        }
        result
    }
}

/// Appends zeros.
fn push_zeros(digits: &mut String, count: usize)
    ensures
        final(digits)@ == old(digits)@ + zeros(count as nat),
{
    let ghost before = digits@;
    assert(before + zeros(0) == before);
    for i in 0..count
        invariant
            digits@ == before + zeros(i as nat),
    {
        digits.push('0');
        assert(before + zeros((i + 1) as nat) == (before + zeros(i as nat)).push('0'));
    }
}

/// The digits without the zeros they end with.
fn trim_zeros(digits: &str) -> (r: String)
    ensures
        r@ == without_trailing_zeros(digits@),
{
    let chars = chars_of(digits);
    let mut end = chars.len();
    assert(chars@.take(end as int) == chars@);
    while end > 0 && chars[end - 1] == '0'
        invariant
            end <= chars@.len(),
            without_trailing_zeros(chars@.take(end as int)) == without_trailing_zeros(chars@),
        decreases end,
    {
        assert(chars@.take(end as int).drop_last() == chars@.take(end - 1));
        end = end - 1;
    }
    assert(chars@.subrange(0, end as int) == chars@.take(end as int));
    string_of(&chars, 0, end)
}

/// The digits in groups of three, counted from the end.
fn group_digits(digits: &Vec<char>) -> (r: Vec<String>)
    ensures
        texts(r@) == groups(digits@),
{
    let n = digits.len();
    let mut end: usize = if n <= 3 {
        n
    } else {
        (n - 1) % 3 + 1
    };
    let mut parts: Vec<String> = Vec::new();
    parts.push(string_of(digits, 0, end));
    proof {
        assert(digits@.subrange(0, end as int) == digits@.take(end as int));
        assert(texts(parts@) == groups(digits@.take(end as int)));
    }
    while end < n
        invariant
            n == digits@.len(),
            end <= n,
            (n - end) % 3 == 0,
            texts(parts@) == groups(digits@.take(end as int)),
            end == n || end >= 1,
        decreases n - end,
    {
        let ghost before = texts(parts@);
        parts.push(string_of(digits, end, end + 3));
        proof {
            let upto = digits@.take(end + 3);
            assert(upto.take(end as int) == digits@.take(end as int));
            assert(upto.skip(end as int) == digits@.subrange(end as int, end + 3));
            assert(texts(parts@) == before.push(digits@.subrange(end as int, end + 3)));
        }
        end = end + 3;
    }
    assert(digits@.take(n as int) == digits@);
    parts
}

/// Formats a number as a string with control over decimal places, decimal separator, and thousands
/// grouping.
///
/// The value is rounded to fit the decimal places; beyond those that carry meaning, zeros are shown.
/// Without `fixed_decimals`, trailing zeros are left out.
pub fn format_number<A>(
    number: Item<RenderedNumber, A>,
    decimal_places: Item<u32, A>,
    decimal_separator: Item<String, A>,
    fixed_decimals: Item<bool, A>,
    use_thousands_separator: Item<bool, A>,
    thousands_separator: Item<String, A>,
    start_at_10000: Item<bool, A>,
) -> (r: Item<String, A>)
    requires
        number.element.well_formed(),
    ensures
        r.element@ == ({
            let format = NumberFormat {
                decimal_places: decimal_places.element as usize,
                decimal_separator: decimal_separator.element,
                fixed_decimals: fixed_decimals.element,
                use_thousands_separator: use_thousands_separator.element,
                thousands_separator: thousands_separator.element,
                start_at_10000: start_at_10000.element,
            };
            let places = number.element.shown_places(decimal_places.element as nat);
            format.shown(number.element.renderings@[places as int].text@, places)
        }),
        r.attributes == number.attributes,
{
    let (number, attributes) = number.into_parts();
    let format = NumberFormat {
        decimal_places: decimal_places.element as usize,
        decimal_separator: decimal_separator.element,
        fixed_decimals: fixed_decimals.element,
        use_thousands_separator: use_thousands_separator.element,
        thousands_separator: thousands_separator.element,
        start_at_10000: start_at_10000.element,
    };
    let places = number.places(format.decimal_places);
    let result = format.show(number.renderings[places].text.as_str(), places);
    Item::from_parts(result, attributes)
}

/// The part of a string that is read as a number: all but the white space around it.
pub fn number_text<A>(string: &Item<String, A>) -> (r: String)
    ensures
        r@ == trimmed(string.element@, true, true),
{
    trim_text(string.element.as_str(), true, true)
}

/// The number that a string was read as. Falls back to the chosen value if the string is not a valid
/// number.
pub fn string_to_number<N, A>(
    string: Item<String, A>,
    parsed: Option<N>,
    fallback: Item<N, A>,
) -> (r: Item<N, A>)
    ensures
        r.element == (match parsed {
            Some(number) => number,
            None => fallback.element,
        }),
        r.attributes == string.attributes,
{
    let (_, attributes) = string.into_parts();
    let number = match parsed {
        Some(number) => number,
        None => fallback.element,
    };
    Item::from_parts(number, attributes)
}

/// Grouped digits are the digits, in groups of three but for the first, which holds one to three.
pub proof fn lemma_groups(digits: Seq<char>)
    requires
        0 < digits.len(),
    ensures
        groups(digits).flatten() == digits,
        0 < groups(digits).len(),
        1 <= groups(digits)[0].len() <= 3,
        forall|i: int| 0 < i < groups(digits).len() ==> (#[trigger] groups(digits)[i]).len() == 3,
    decreases digits.len(),
{
    if digits.len() <= 3 {
        seq![digits].lemma_flatten_one_element();
    } else {
        let front = digits.take(digits.len() - 3);
        let last = digits.skip(digits.len() - 3);
        lemma_groups(front);
        groups(front).lemma_flatten_push(last);
        assert(front + last == digits);
        assert forall|i: int| 0 < i < groups(digits).len() implies (#[trigger] groups(
            digits,
        )[i]).len() == 3 by {
            if i < groups(front).len() {
                assert(groups(digits)[i] == groups(front)[i]);
            }
        }
    }
}

/// Of digits whose trailing zeros are removed, only zeros are gone and none is left at the end.
proof fn lemma_without_trailing_zeros(digits: Seq<char>)
    ensures
        ({
            let kept = without_trailing_zeros(digits);
            &&& kept.len() <= digits.len()
            &&& kept + zeros((digits.len() - kept.len()) as nat) == digits
            &&& kept.len() > 0 ==> kept.last() != '0'
        }),
    decreases digits.len(),
{
    let kept = without_trailing_zeros(digits);
    if digits.len() > 0 && digits.last() == '0' {
        let front = digits.drop_last();
        lemma_without_trailing_zeros(front);
        assert(kept + zeros((digits.len() - kept.len()) as nat) == (kept + zeros(
            (front.len() - kept.len()) as nat,
        )).push('0'));
        assert(front.push('0') == digits);
    } else {
        assert(kept + zeros(0) == digits);
    }
}

/// With fixed decimals, as many digits are shown behind the decimal point as asked for, and none only
/// where none are asked for. Without, the digits shown do not end with a zero and show the same
/// number: only zeros are left out.
pub proof fn lemma_shown_decimals(format: NumberFormat, decimals: Seq<char>, places: nat)
    requires
        decimals.len() == places,
        places <= format.decimal_places,
    ensures
        ({
            let all = decimals + zeros((format.decimal_places - places) as nat);
            &&& format.fixed_decimals ==> format.shown_decimals(Some(decimals), places) == Some(all)
                && all.len() == format.decimal_places
            &&& !format.fixed_decimals ==> match format.shown_decimals(Some(decimals), places) {
                Some(shown) => shown.last() != '0' && 0 < shown.len() <= all.len() && shown + zeros(
                    (all.len() - shown.len()) as nat,
                ) == all,
                None => all == zeros(all.len()),
            }
        }),
        format.shown_decimals(None, 0) == if format.fixed_decimals && format.decimal_places > 0 {
            Some(zeros(format.decimal_places as nat))
        } else {
            None
        },
{
    let all = decimals + zeros((format.decimal_places - places) as nat);
    assert(decimals + zeros(0) == decimals);
    lemma_without_trailing_zeros(all);
    if without_trailing_zeros(all).len() == 0 {
        assert(without_trailing_zeros(all) + zeros(all.len()) == zeros(all.len()));
    }
}

/// A number is written with no more decimal places than asked for, nor with more than it takes: with
/// fewer than it is shown with, beyond those asked for, it cannot be read back.
pub proof fn lemma_shown_places(number: RenderedNumber, requested: nat)
    ensures
        number.shown_places(requested) <= requested,
        number.shown_places(requested) <= number.places_bound(),
        forall|p: nat|
            p < number.shown_places(requested) ==> !(#[trigger] number.renderings@[p
                as int]).round_trips,
        number.shown_places(requested) < requested && number.shown_places(requested)
            < number.places_bound() ==> number.renderings@[number.shown_places(
            requested,
        ) as int].round_trips,
{
    lemma_meaningful_places(number, 0);
}

/// The places that carry meaning are the fewest with which the number can be read back.
proof fn lemma_meaningful_places(number: RenderedNumber, from: nat)
    requires
        from <= number.places_bound(),
    ensures
        from <= number.meaningful_places(from) <= number.places_bound(),
        forall|p: nat|
            from <= p < number.meaningful_places(from) ==> !(#[trigger] number.renderings@[p
                as int]).round_trips,
        number.meaningful_places(from) < number.places_bound()
            ==> number.renderings@[number.meaningful_places(from) as int].round_trips,
    decreases number.places_bound() - from,
{
    if from < number.places_bound() && !number.renderings@[from as int].round_trips {
        lemma_meaningful_places(number, from + 1);
    }
}

/// A number is shown as it was written, where digits are not grouped, a point stands for the decimal
/// point and all the decimal places asked for are written.
pub proof fn lemma_shown_as_written(format: NumberFormat, text: Seq<char>)
    requires
        !format.use_thousands_separator,
        format.decimal_separator@ == seq!['.'],
        format.fixed_decimals,
        decimal_part(text) is None ==> format.decimal_places == 0,
    ensures
        format.shown(text, format.decimal_places as nat) == text,
{
    let rest = unsigned(text);
    lemma_first_match(rest, seq!['.'], 0);
    assert(sign_of(text) + rest == text);
    match first_match(rest, seq!['.'], 0) {
        Some(i) => {
            assert(rest.subrange(i, i + 1) == seq!['.']);
            assert(rest.subrange(i, i + 1)[0] == rest[i]);
            assert(rest == rest.take(i) + seq!['.'] + rest.skip(i + 1));
            assert(format.shown(text, format.decimal_places as nat) == sign_of(text) + rest.take(i)
                + seq!['.'] + rest.skip(i + 1));
        },
        None => {},
    }
}

/// A text without the characters of another.
pub open spec fn without_chars(text: Seq<char>, unwanted: Seq<char>) -> Seq<char> {
    text.filter(|c: char| !unwanted.contains(c))
}

/// Whether two texts have no character in common.
pub open spec fn share_no_char(a: Seq<char>, b: Seq<char>) -> bool {
    forall|i: int| 0 <= i < a.len() ==> !b.contains(#[trigger] a[i])
}

/// Removing characters from two texts after one another is removing them from each.
proof fn lemma_without_chars_concat(a: Seq<char>, b: Seq<char>, unwanted: Seq<char>)
    ensures
        without_chars(a + b, unwanted) == without_chars(a, unwanted) + without_chars(b, unwanted),
{
    Seq::filter_distributes_over_add(a, b, |c: char| !unwanted.contains(c));
}

/// A text that has none of the unwanted characters keeps all of its own.
proof fn lemma_without_chars_keeps(text: Seq<char>, unwanted: Seq<char>)
    requires
        share_no_char(text, unwanted),
    ensures
        without_chars(text, unwanted) == text,
    decreases text.len(),
{
    reveal(Seq::filter);
    if text.len() > 0 {
        let front = text.drop_last();
        assert forall|i: int| 0 <= i < front.len() implies !unwanted.contains(
            #[trigger] front[i],
        ) by {
            assert(front[i] == text[i]);
        }
        lemma_without_chars_keeps(front, unwanted);
        assert(!unwanted.contains(text.last()));
        assert(front.push(text.last()) == text);
    }
}

/// Of the unwanted characters themselves nothing is left.
proof fn lemma_without_chars_drops(text: Seq<char>, unwanted: Seq<char>)
    requires
        forall|i: int| 0 <= i < text.len() ==> unwanted.contains(#[trigger] text[i]),
    ensures
        without_chars(text, unwanted) == Seq::<char>::empty(),
    decreases text.len(),
{
    reveal(Seq::filter);
    if text.len() > 0 {
        let front = text.drop_last();
        assert forall|i: int| 0 <= i < front.len() implies unwanted.contains(
            #[trigger] front[i],
        ) by {
            assert(front[i] == text[i]);
        }
        lemma_without_chars_drops(front, unwanted);
        assert(unwanted.contains(text.last()));
    }
}

/// Parts of a text that shares no character with another share none with it either.
proof fn lemma_share_no_char_part(text: Seq<char>, other: Seq<char>, from: int, to: int)
    requires
        share_no_char(text, other),
        0 <= from <= to <= text.len(),
    ensures
        share_no_char(text.subrange(from, to), other),
{
    let part = text.subrange(from, to);
    assert forall|i: int| 0 <= i < part.len() implies !other.contains(#[trigger] part[i]) by {
        assert(part[i] == text[from + i]);
    }
}

/// Grouped digits without the characters of the separator are the digits.
proof fn lemma_ungrouped(digits: Seq<char>, separator: Seq<char>)
    requires
        share_no_char(digits, separator),
    ensures
        without_chars(joined(groups(digits), separator), separator) == digits,
    decreases digits.len(),
{
    if digits.len() <= 3 {
        lemma_without_chars_keeps(digits, separator);
    } else {
        let n = digits.len() as int;
        let front = digits.take(n - 3);
        let last = digits.skip(n - 3);
        assert(front == digits.subrange(0, n - 3));
        assert(last == digits.subrange(n - 3, n));
        lemma_share_no_char_part(digits, separator, 0, n - 3);
        lemma_share_no_char_part(digits, separator, n - 3, n);
        lemma_ungrouped(front, separator);
        lemma_groups(front);
        let before = joined(groups(front), separator);
        assert(groups(digits).drop_last() == groups(front));
        assert(groups(digits).last() == last);
        assert(joined(groups(digits), separator) == before + separator + last);
        lemma_without_chars_concat(before + separator, last, separator);
        lemma_without_chars_concat(before, separator, separator);
        assert forall|i: int| 0 <= i < separator.len() implies separator.contains(
            #[trigger] separator[i],
        ) by {}
        lemma_without_chars_drops(separator, separator);
        lemma_without_chars_keeps(last, separator);
        assert(front + Seq::<char>::empty() + last == digits);
    }
}

/// The decimal point and the digits behind it, as they are shown.
pub open spec fn shown_tail(format: NumberFormat, text: Seq<char>, places: nat) -> Seq<char> {
    match format.shown_decimals(decimal_part(text), places) {
        Some(digits) => format.decimal_separator@ + digits,
        None => Seq::empty(),
    }
}

/// Grouping adds separators and nothing else: a number shown with groups, without the characters of
/// the separator, is the number shown without groups. Behind the whole part there are none to remove.
/// Where grouping is not put off to five digits, the whole part is shown in groups, the first of one to
/// three digits and all others of three.
///
/// The characters of the separator are to be others than the sign, the digits and those of the decimal
/// separator.
pub proof fn lemma_grouping_adds_separators(format: NumberFormat, text: Seq<char>, places: nat)
    requires
        format.use_thousands_separator,
        0 < format.thousands_separator@.len(),
        share_no_char(sign_of(text), format.thousands_separator@),
        share_no_char(whole_part(text), format.thousands_separator@),
        decimal_part(text) matches Some(decimals) ==> share_no_char(
            decimals,
            format.thousands_separator@,
        ),
        share_no_char(format.decimal_separator@, format.thousands_separator@),
        !format.thousands_separator@.contains('0'),
    ensures
        ({
            let separator = format.thousands_separator@;
            let plain = NumberFormat { use_thousands_separator: false, ..format };
            let whole = format.shown_whole(whole_part(text));
            let tail = shown_tail(format, text, places);
            &&& without_chars(format.shown(text, places), separator) == plain.shown(text, places)
            &&& format.shown(text, places) == sign_of(text) + whole + tail
            &&& share_no_char(tail, separator)
            &&& !format.start_at_10000 && 0 < whole_part(text).len() ==> {
                let parts = groups(whole_part(text));
                &&& whole == joined(parts, separator)
                &&& 1 <= parts[0].len() <= 3
                &&& forall|i: int| 0 < i < parts.len() ==> (#[trigger] parts[i]).len() == 3
            }
        }),
{
    let separator = format.thousands_separator@;
    let plain = NumberFormat { use_thousands_separator: false, ..format };
    let digits = whole_part(text);
    let whole = format.shown_whole(digits);
    let tail = shown_tail(format, text, places);
    if 0 < digits.len() {
        lemma_groups(digits);
    }
    match format.shown_decimals(decimal_part(text), places) {
        Some(shown) => {
            if let Some(decimals) = decimal_part(text) {
                let filled = if format.decimal_places > places {
                    decimals + zeros((format.decimal_places - places) as nat)
                } else {
                    decimals
                };
                lemma_without_trailing_zeros(filled);
                let kept = without_trailing_zeros(filled);
                assert forall|i: int| 0 <= i < filled.len() implies !separator.contains(
                    #[trigger] filled[i],
                ) by {
                    if i < decimals.len() {
                        assert(filled[i] == decimals[i]);
                    }
                }
                assert forall|i: int| 0 <= i < kept.len() implies !separator.contains(
                    #[trigger] kept[i],
                ) by {
                    assert(filled[i] == kept[i]);
                }
            }
            assert(share_no_char(shown, separator));
            assert forall|i: int| 0 <= i < tail.len() implies !separator.contains(
                #[trigger] tail[i],
            ) by {
                if i < format.decimal_separator@.len() {
                    assert(tail[i] == format.decimal_separator@[i]);
                } else {
                    assert(tail[i] == shown[i - format.decimal_separator@.len()]);
                }
            }
        },
        None => {},
    }
    assert(format.shown(text, places) == sign_of(text) + whole + tail);
    assert(shown_tail(plain, text, places) == tail);
    assert(plain.shown(text, places) == sign_of(text) + digits + tail);
    lemma_ungrouped(digits, separator);
    lemma_without_chars_keeps(digits, separator);
    lemma_without_chars_keeps(sign_of(text), separator);
    lemma_without_chars_keeps(tail, separator);
    lemma_without_chars_concat(sign_of(text) + whole, tail, separator);
    lemma_without_chars_concat(sign_of(text), whole, separator);
}

/// A minus that a written number starts with is shown as it is, before all that is shown of the number
/// without it: it is never counted among the digits, so no separator stands behind it.
pub proof fn lemma_minus_stands_first(format: NumberFormat, text: Seq<char>, places: nat)
    requires
        text.len() > 0,
        text[0] == '-',
        text.len() > 1 ==> text[1] != '-',
    ensures
        format.shown(text, places) == seq!['-'] + format.shown(text.skip(1), places),
{
    let rest = text.skip(1);
    assert(unsigned(text) == rest);
    assert(sign_of(rest) == Seq::<char>::empty());
    assert(unsigned(rest) == rest);
    let whole = format.shown_whole(whole_part(rest));
    assert(seq!['-'] + (Seq::<char>::empty() + whole) == seq!['-'] + whole);
    match format.shown_decimals(decimal_part(rest), places) {
        Some(digits) => {
            assert(seq!['-'] + (Seq::<char>::empty() + whole + format.decimal_separator@ + digits)
                == seq!['-'] + whole + format.decimal_separator@ + digits);
        },
        None => {},
    }
}

/// The first point of a written number is where its decimals begin.
proof fn lemma_parts_at_point(whole: Seq<char>, decimals: Seq<char>)
    requires
        !whole.contains('.'),
        whole.len() > 0 ==> whole[0] != '-',
    ensures
        ({
            let text = whole + seq!['.'] + decimals;
            &&& sign_of(text).len() == 0 && sign_of(whole).len() == 0
            &&& whole_part(text) == whole && decimal_part(text) == Some(decimals)
            &&& whole_part(whole) == whole && decimal_part(whole) is None
        }),
{
    let point = seq!['.'];
    let text = whole + point + decimals;
    let n = whole.len() as int;
    assert(unsigned(text) == text);
    assert(unsigned(whole) == whole);
    lemma_first_match(text, point, 0);
    lemma_first_match(whole, point, 0);
    assert(text.subrange(n, n + 1) == point);
    assert(crate::search::matches_at(text, point, n));
    assert forall|i: int| 0 <= i < n implies !#[trigger] crate::search::matches_at(
        text,
        point,
        i,
    ) by {
        assert(text.subrange(i, i + 1)[0] == whole[i]);
        assert(whole.contains(whole[i]));
    }
    assert forall|i: int| !#[trigger] crate::search::matches_at(whole, point, i) by {
        if 0 <= i < n {
            assert(whole.subrange(i, i + 1)[0] == whole[i]);
            assert(whole.contains(whole[i]));
        }
    }
    assert(first_match(text, point, 0) == Some(n));
    assert(text.take(n) == whole);
    assert(text.skip(n + 1) == decimals);
}

/// With fixed decimals, a number that is written with a point is shown as its whole part, the decimal
/// separator and its decimals, with zeros for the decimals that are asked for beyond those written. One
/// written without a point gets zeros alone, and no separator where none are asked for.
pub proof fn lemma_fixed_decimals_shown(
    format: NumberFormat,
    whole: Seq<char>,
    decimals: Seq<char>,
    places: nat,
)
    requires
        format.fixed_decimals,
        !whole.contains('.'),
        whole.len() > 0 ==> whole[0] != '-',
    ensures
        ({
            let lacking = if format.decimal_places > places {
                (format.decimal_places - places) as nat
            } else {
                0
            };
            let digits = format.shown_whole(whole);
            &&& format.shown(whole + seq!['.'] + decimals, places) == digits
                + format.decimal_separator@ + decimals + Seq::new(lacking, |i: int| '0')
            &&& format.decimal_places > 0 ==> format.shown(whole, places) == digits
                + format.decimal_separator@ + Seq::new(format.decimal_places as nat, |i: int| '0')
            &&& format.decimal_places == 0 ==> format.shown(whole, places) == digits
        }),
{
    lemma_parts_at_point(whole, decimals);
    let digits = format.shown_whole(whole);
    let none = Seq::<char>::empty();
    assert(none + digits == digits);
    if format.decimal_places > places {
        let fill = Seq::new((format.decimal_places - places) as nat, |i: int| '0');
        assert(zeros((format.decimal_places - places) as nat) == fill);
        assert(digits + format.decimal_separator@ + (decimals + fill) == digits
            + format.decimal_separator@ + decimals + fill);
    } else {
        assert(Seq::new(0, |i: int| '0') == none);
        assert(digits + format.decimal_separator@ + decimals + none == digits
            + format.decimal_separator@ + decimals);
    }
    assert(zeros(format.decimal_places as nat) == Seq::new(
        format.decimal_places as nat,
        |i: int| '0',
    ));
}

/// Without fixed decimals, the zeros that the decimals end with are not shown, whichever of them were
/// written, and where nothing else is left neither is the separator.
pub proof fn lemma_trimmed_decimals_shown(
    format: NumberFormat,
    whole: Seq<char>,
    kept: Seq<char>,
    trailing: nat,
    places: nat,
)
    requires
        !format.fixed_decimals,
        !whole.contains('.'),
        whole.len() > 0 ==> whole[0] != '-',
        kept.len() > 0 ==> kept.last() != '0',
    ensures
        ({
            let decimals = kept + Seq::new(trailing, |i: int| '0');
            let digits = format.shown_whole(whole);
            &&& kept.len() > 0 ==> format.shown(whole + seq!['.'] + decimals, places) == digits
                + format.decimal_separator@ + kept
            &&& kept.len() == 0 ==> format.shown(whole + seq!['.'] + decimals, places) == digits
            &&& format.shown(whole, places) == digits
        }),
{
    let decimals = kept + Seq::new(trailing, |i: int| '0');
    lemma_parts_at_point(whole, decimals);
    let digits = format.shown_whole(whole);
    assert(Seq::<char>::empty() + digits == digits);
    assert(decimals == kept + zeros(trailing));
    lemma_zeros_trimmed(kept, trailing);
    if format.decimal_places > places {
        let more = (format.decimal_places - places) as nat;
        assert(decimals + zeros(more) == kept + zeros(trailing + more));
        lemma_zeros_trimmed(kept, trailing + more);
    }
}

/// The zeros behind digits that do not end with one are those that are removed.
proof fn lemma_zeros_trimmed(kept: Seq<char>, trailing: nat)
    requires
        kept.len() > 0 ==> kept.last() != '0',
    ensures
        without_trailing_zeros(kept + zeros(trailing)) == kept,
    decreases trailing,
{
    if trailing > 0 {
        let fewer = (trailing - 1) as nat;
        assert((kept + zeros(trailing)).drop_last() == kept + zeros(fewer));
        lemma_zeros_trimmed(kept, fewer);
    } else {
        assert(kept + zeros(0) == kept);
    }
}

/// Whether a text is made of digits alone.
pub open spec fn all_digits(text: Seq<char>) -> bool {
    forall|i: int| 0 <= i < text.len() ==> '0' <= #[trigger] text[i] <= '9'
}

/// The whole part is shown as it is where it is not grouped, where nothing separates groups, where it
/// has three digits or fewer, and where it has four and grouping is put off. Otherwise its last three
/// digits stand behind a separator, and before that the others are shown as they would be alone, if
/// grouping were not put off.
pub proof fn lemma_digits_grouped(format: NumberFormat, whole: Seq<char>)
    requires
        all_digits(whole),
    ensures
        !format.use_thousands_separator ==> format.shown_whole(whole) == whole,
        format.thousands_separator@.len() == 0 ==> format.shown_whole(whole) == whole,
        whole.len() <= 3 ==> format.shown_whole(whole) == whole,
        format.start_at_10000 && whole.len() <= 4 ==> format.shown_whole(whole) == whole,
        format.use_thousands_separator && format.thousands_separator@.len() > 0 && whole.len() > 3
            && (!format.start_at_10000 || whole.len() > 4) ==> format.shown_whole(whole)
            == (NumberFormat { start_at_10000: false, ..format }).shown_whole(
            whole.take(whole.len() - 3),
        ) + format.thousands_separator@ + whole.skip(whole.len() - 3),
{
    assert(vstd::utf8::is_ascii_chars(whole));
    vstd::utf8::is_ascii_chars_encode_utf8(whole);
    let separator = format.thousands_separator@;
    if whole.len() > 3 {
        let front = whole.take(whole.len() - 3);
        let last = whole.skip(whole.len() - 3);
        lemma_groups(front);
        assert(groups(whole).drop_last() == groups(front));
        assert(groups(whole).last() == last);
        assert(joined(groups(whole), separator) == joined(groups(front), separator) + separator
            + last);
    } else {
        assert(groups(whole) == seq![whole]);
    }
}

/// A number other than zero takes up as many of the digits that carry meaning as its magnitude says, and
/// one more; zero takes up one. The decimals can have the rest.
pub proof fn lemma_digits_that_carry_meaning(number: RenderedNumber)
    ensures
        number.is_zero ==> number.places_bound() == 16,
        !number.is_zero && number.magnitude <= 16 ==> number.places_bound() + number.magnitude == 16,
        !number.is_zero && number.magnitude > 16 ==> number.places_bound() == 0,
{
}

/// What has three characters or fewer before the decimal point is never grouped, be it digits or the name
/// of what has none.
pub proof fn lemma_short_whole_kept(format: NumberFormat, whole: Seq<char>)
    requires
        whole.len() <= 3,
    ensures
        format.shown_whole(whole) == whole,
{
    assert(groups(whole) == seq![whole]);
}

} // verus!
