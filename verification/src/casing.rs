//! The capitalization of strings.

use crate::graphemes::grapheme_clusters;
use crate::item::Item;
use crate::text::{chars_of, is_white_space, joined, string_of, white_space};
use convert_case::{pattern, Boundary, Converter};
use vstd::prelude::*;

verus! {

/// A style of capitalization.
#[derive(Debug, Clone, Copy, Default, PartialEq, Eq, Hash)]
pub enum StringCapitalization {
    /// "on the origin of species" — Converts all letters to lower case.
    #[default]
    LowerCase,
    /// "ON THE ORIGIN OF SPECIES" — Converts all letters to upper case.
    UpperCase,
    /// "On The Origin Of Species" — Converts the first letter of every word to upper case.
    CapitalCase,
    /// "On the Origin of Species" — Converts the first letter of significant words to upper case.
    HeadlineCase,
    /// "On the origin of species" — Converts the first letter of every word to lower case, except the initial word which is made upper case.
    SentenceCase,
    /// "on The Origin Of Species" — Converts the first letter of every word to upper case, except the initial word which is made lower case.
    CamelCase,
}

/// Where a text is taken apart into words.
#[derive(Debug, Clone, Copy, PartialEq, Eq)]
pub enum WordBoundaries {
    /// At underscores, hyphens and spaces, and where the case of letters or a digit starts a word.
    Defaults,
    /// At spaces alone.
    Spaces,
}

/// How the words of a text are cased.
#[derive(Debug, Clone, Copy, PartialEq, Eq)]
pub enum WordPattern {
    /// Every word as it is.
    Unchanged,
    /// Every word with a capital.
    Capital,
    /// The first word with a capital, the others in lower case.
    Sentence,
    /// The first word in lower case, the others with a capital.
    Camel,
}

/// A text in lower case.
pub uninterp spec fn lower_case(text: Seq<char>) -> Seq<char>;

/// A text in upper case.
pub uninterp spec fn upper_case(text: Seq<char>) -> Seq<char>;

/// The characters that one character is in lower case.
pub uninterp spec fn lower_case_char(c: char) -> Seq<char>;

/// The characters that one character is in upper case.
pub uninterp spec fn upper_case_char(c: char) -> Seq<char>;

/// A text in title case, in which small words such as "of" stay in lower case.
pub uninterp spec fn title_case(text: Seq<char>) -> Seq<char>;

/// The words of a text, at the boundaries that `WordBoundaries::Defaults` stands for.
pub uninterp spec fn default_words(text: Seq<char>) -> Seq<Seq<char>>;

/// A word with its first character in upper case and the others in lower case.
pub open spec fn capital_word(word: Seq<char>) -> Seq<char> {
    let clusters = grapheme_clusters(word);
    if clusters.len() == 0 {
        Seq::empty()
    } else {
        upper_case(clusters[0]) + lower_case(clusters.skip(1).flatten())
    }
}

/// Words cased by a pattern.
pub open spec fn cased_words(words: Seq<Seq<char>>, pattern: WordPattern) -> Seq<Seq<char>> {
    Seq::new(
        words.len(),
        |i: int|
            match pattern {
                WordPattern::Unchanged => words[i],
                WordPattern::Capital => capital_word(words[i]),
                WordPattern::Sentence => if i == 0 {
                    capital_word(words[i])
                } else {
                    lower_case(words[i])
                },
                WordPattern::Camel => if i == 0 {
                    lower_case(words[i])
                } else {
                    capital_word(words[i])
                },
            },
    )
}

/// The words of a text, cased by a pattern and put together with a delimiter.
pub open spec fn converted(text: Seq<char>, pattern: WordPattern, delimiter: Seq<char>) -> Seq<
    char,
> {
    joined(cased_words(default_words(text), pattern), delimiter)
}

/// What a text taken apart holds between its spaces, `word` being what came since the last one.
pub open spec fn spaced_words(clusters: Seq<Seq<char>>, word: Seq<char>) -> Seq<Seq<char>>
    decreases clusters.len(),
{
    let done = if word.len() == 0 {
        Seq::empty()
    } else {
        seq![word]
    };
    if clusters.len() == 0 {
        done
    } else if clusters[0] == seq![' '] {
        done + spaced_words(clusters.skip(1), Seq::empty())
    } else {
        spaced_words(clusters.skip(1), word + clusters[0])
    }
}

/// Whether a text holds nothing but characters of ASCII.
pub open spec fn ascii(text: Seq<char>) -> bool {
    forall|i: int| 0 <= i < text.len() ==> #[trigger] text[i] <= '\u{7f}'
}

/// A character of ASCII in lower case: the small letter of a capital, and any other as it is.
pub open spec fn ascii_lower(c: char) -> char {
    if 'A' <= c <= 'Z' {
        (c as nat + 32) as char
    } else {
        c
    }
}

/// A character of ASCII in upper case: the capital of a small letter, and any other as it is.
pub open spec fn ascii_upper(c: char) -> char {
    if 'a' <= c <= 'z' {
        (c as nat - 32) as char
    } else {
        c
    }
}

/// `str::to_lowercase`. The result is a function of the text. In a text of ASCII, capitals become small
/// letters and nothing else changes.
#[verifier::external_body]
fn to_lower_case(text: &str) -> (r: String)
    ensures
        r@ == lower_case(text@),
        ascii(text@) ==> r@ == text@.map_values(|c: char| ascii_lower(c)),
{
    text.to_lowercase()
}

/// `str::to_uppercase`. The result is a function of the text. In a text of ASCII, small letters become
/// capitals and nothing else changes.
#[verifier::external_body]
fn to_upper_case(text: &str) -> (r: String)
    ensures
        r@ == upper_case(text@),
        ascii(text@) ==> r@ == text@.map_values(|c: char| ascii_upper(c)),
{
    text.to_uppercase()
}

/// `char::to_lowercase`. The result, one character or more, is a function of the character. For one of
/// ASCII it is the small letter of a capital, and any other as it is.
#[verifier::external_body]
fn char_to_lower_case(c: char) -> (r: String)
    ensures
        r@ == lower_case_char(c),
        c <= '\u{7f}' ==> r@ == seq![ascii_lower(c)],
{
    c.to_lowercase().to_string()
}

/// `char::to_uppercase`. The result, one character or more, is a function of the character. For one of
/// ASCII it is the capital of a small letter, and any other as it is.
#[verifier::external_body]
fn char_to_upper_case(c: char) -> (r: String)
    ensures
        r@ == upper_case_char(c),
        c <= '\u{7f}' ==> r@ == seq![ascii_upper(c)],
{
    c.to_uppercase().to_string()
}

/// `titlecase::titlecase`. The result is a function of the text. A word that starts with open brackets
/// takes one nested call for each of them, so thousands of them can exhaust the stack.
#[verifier::external_body]
fn to_title_case(text: &str) -> (r: String)
    ensures
        r@ == title_case(text@),
{
    titlecase::titlecase(text)
}

/// `convert_case::Converter::convert`, of a converter made with the given boundaries, pattern and
/// delimiter. Each word is cased as the pattern says, and the delimiter stands between the words.
/// The words at the default boundaries are a function of the text. Between spaces, the words are what
/// the grapheme clusters other than a space make up, empty ones left out.
#[verifier::external_body]
fn convert_words(
    text: &str,
    boundaries: WordBoundaries,
    word_pattern: WordPattern,
    delimiter: &str,
) -> (r: String)
    ensures
        boundaries == WordBoundaries::Defaults ==> r@ == joined(
            cased_words(default_words(text@), word_pattern),
            delimiter@,
        ),
        boundaries == WordBoundaries::Spaces ==> r@ == joined(
            cased_words(spaced_words(grapheme_clusters(text@), Seq::empty()), word_pattern),
            delimiter@,
        ),
{
    let converter = match boundaries {
        WordBoundaries::Defaults => Converter::new().set_boundaries(&Boundary::defaults()),
        WordBoundaries::Spaces => Converter::new().set_boundaries(&[Boundary::SPACE]),
    };
    let converter = match word_pattern {
        WordPattern::Unchanged => converter.set_pattern(pattern::noop),
        WordPattern::Capital => converter.set_pattern(pattern::capital),
        WordPattern::Sentence => converter.set_pattern(pattern::sentence),
        WordPattern::Camel => converter.set_pattern(pattern::camel),
    };
    converter.set_delim(delimiter).convert(text)
}

/// Whether a character stands between words.
pub open spec fn separates_words(c: char) -> bool {
    white_space(c) || c == '_' || c == '-'
}

/// What a character is to the word it belongs to.
#[derive(Debug, Clone, Copy, PartialEq, Eq)]
pub enum CharRole {
    /// It stands between words.
    Separator,
    /// It is the first of a word that gets a capital.
    Initial,
    /// It is any other character.
    Inner,
}

/// Whether a word begins before `i`.
pub open spec fn word_begun(text: Seq<char>, i: int) -> bool {
    exists|j: int| 0 <= j < i && !separates_words(#[trigger] text[j])
}

/// What the character at `i` is to its word. The initial word, with or without separators before it,
/// gets a capital where `capital_first` says so, and every later word does.
pub open spec fn char_role(text: Seq<char>, i: int, capital_first: bool) -> CharRole {
    if separates_words(text[i]) {
        CharRole::Separator
    } else if (i == 0 || separates_words(text[i - 1])) && (capital_first || word_begun(text, i)) {
        CharRole::Initial
    } else {
        CharRole::Inner
    }
}

/// A text whose words get capitals, without a change to what stands between them.
pub open spec fn capitals_in_place(
    text: Seq<char>,
    capital_first: bool,
    lower_inner: bool,
) -> Seq<Seq<char>> {
    Seq::new(
        text.len(),
        |i: int|
            match char_role(text, i, capital_first) {
                CharRole::Separator => seq![text[i]],
                CharRole::Initial => upper_case_char(text[i]),
                CharRole::Inner => if lower_inner {
                    lower_case_char(text[i])
                } else {
                    seq![text[i]]
                },
            },
    )
}

/// What each character of a text is to its word.
pub fn char_roles(text: &str, capital_first: bool) -> (r: Vec<CharRole>)
    ensures
        r@ == Seq::new(text@.len(), |i: int| char_role(text@, i, capital_first)),
{
    let chars = chars_of(text);
    let n = chars.len();
    let mut roles: Vec<CharRole> = Vec::new();
    let mut at_start = true;
    let mut begun = false;
    for i in 0..n
        invariant
            n == chars@.len(),
            chars@ == text@,
            roles@ == Seq::new(i as nat, |k: int| char_role(text@, k, capital_first)),
            at_start == (i == 0 || separates_words(text@[i - 1])),
            begun == word_begun(text@, i as int),
    {
        let c = chars[i];
        if is_white_space(c) || c == '_' || c == '-' {
            at_start = true;
            roles.push(CharRole::Separator);
        } else {
            if at_start && (capital_first || begun) {
                roles.push(CharRole::Initial);
            } else {
                roles.push(CharRole::Inner);
            }
            assert(!separates_words(text@[i as int]));
            at_start = false;
            begun = true;
        }
    }
    roles
}

/// A character of an ASCII text whose words get capitals, without a change to what stands between them.
pub open spec fn ascii_capital_in_place(
    text: Seq<char>,
    i: int,
    capital_first: bool,
    lower_inner: bool,
) -> char {
    match char_role(text, i, capital_first) {
        CharRole::Separator => text[i],
        CharRole::Initial => ascii_upper(text[i]),
        CharRole::Inner => if lower_inner {
            ascii_lower(text[i])
        } else {
            text[i]
        },
    }
}

/// The text with capitals for its words, without a change to what stands between them.
fn capitalize_in_place(text: &str, capital_first: bool, lower_inner: bool) -> (r: String)
    ensures
        r@ == capitals_in_place(text@, capital_first, lower_inner).flatten(),
        ascii(text@) ==> r@ == Seq::new(
            text@.len(),
            |i: int| ascii_capital_in_place(text@, i, capital_first, lower_inner),
        ),
{
    let chars = chars_of(text);
    let roles = char_roles(text, capital_first);
    let n = chars.len();
    let ghost cased = capitals_in_place(text@, capital_first, lower_inner);
    let mut result = String::new();
    assert(cased.take(0) == Seq::<Seq<char>>::empty());
    for i in 0..n
        invariant
            n == chars@.len(),
            chars@ == text@,
            roles@ == Seq::new(text@.len(), |k: int| char_role(text@, k, capital_first)),
            cased == capitals_in_place(text@, capital_first, lower_inner),
            result@ == cased.take(i as int).flatten(),
            ascii(text@) ==> result@ == Seq::new(
                i as nat,
                |k: int| ascii_capital_in_place(text@, k, capital_first, lower_inner),
            ),
    {
        let c = chars[i];
        let ghost before = result@;
        match roles[i] {
            CharRole::Separator => result.push(c),
            CharRole::Initial => result.append(char_to_upper_case(c).as_str()),
            CharRole::Inner => if lower_inner {
                result.append(char_to_lower_case(c).as_str())
            } else {
                result.push(c)
            },
        }
        proof {
            assert(result@ == before + cased[i as int]);
            assert(cased.take(i + 1) == cased.take(i as int).push(cased[i as int]));
            cased.take(i as int).lemma_flatten_push(cased[i as int]);
        }
    }
    assert(cased.take(n as int) == cased);
    result
}

/// How many characters stand before the initial word of a text.
pub open spec fn initial_word(text: Seq<char>) -> nat
    decreases text.len(),
{
    if text.len() > 0 && separates_words(text[0]) {
        1 + initial_word(text.skip(1))
    } else {
        0
    }
}

/// A text whose initial word begins with a capital and all behind that in lower case, without a change
/// to what stands before that word.
pub open spec fn sentence_in_place(text: Seq<char>) -> Seq<char> {
    let start = initial_word(text) as int;
    if start >= text.len() {
        text
    } else {
        text.take(start) + upper_case_char(text[start]) + lower_case(text.skip(start + 1))
    }
}

/// The place at which the initial word begins, or the end.
fn find_initial_word(chars: &Vec<char>) -> (r: usize)
    ensures
        r == initial_word(chars@),
        r <= chars@.len(),
{
    let n = chars.len();
    let mut i: usize = 0;
    assert(chars@.skip(0) == chars@);
    while i < n && (is_white_space(chars[i]) || chars[i] == '_' || chars[i] == '-')
        invariant
            n == chars@.len(),
            i <= n,
            initial_word(chars@) == i + initial_word(chars@.skip(i as int)),
        decreases n - i,
    {
        assert(chars@.skip(i as int).skip(1) == chars@.skip(i + 1));
        i = i + 1;
    }
    i
}

/// A text capitalized in a style, its words put together with `joiner` where that is used.
pub open spec fn capitalized(
    text: Seq<char>,
    capitalization: StringCapitalization,
    use_joiner: bool,
    joiner: Seq<char>,
) -> Seq<char> {
    match capitalization {
        StringCapitalization::LowerCase => lower_case(text),
        StringCapitalization::UpperCase => upper_case(text),
        StringCapitalization::CapitalCase => if use_joiner {
            converted(text, WordPattern::Capital, joiner)
        } else {
            capitals_in_place(text, true, false).flatten()
        },
        StringCapitalization::HeadlineCase => if use_joiner {
            let spaced = converted(text, WordPattern::Capital, seq![' ']);
            joined(spaced_words(grapheme_clusters(title_case(spaced)), Seq::empty()), joiner)
        } else {
            title_case(text)
        },
        StringCapitalization::SentenceCase => if use_joiner {
            converted(text, WordPattern::Sentence, joiner)
        } else {
            sentence_in_place(text)
        },
        StringCapitalization::CamelCase => if use_joiner {
            converted(text, WordPattern::Camel, joiner)
        } else {
            capitals_in_place(text, false, true).flatten()
        },
    }
}

/// A text of ASCII capitalized in a style that maps its characters one by one: any but headline case,
/// without a joiner.
pub open spec fn ascii_cased(text: Seq<char>, capitalization: StringCapitalization) -> Seq<char> {
    Seq::new(
        text.len(),
        |i: int|
            match capitalization {
                StringCapitalization::UpperCase => ascii_upper(text[i]),
                StringCapitalization::CapitalCase => ascii_capital_in_place(text, i, true, false),
                StringCapitalization::SentenceCase => if i == initial_word(text) {
                    ascii_upper(text[i])
                } else {
                    ascii_lower(text[i])
                },
                StringCapitalization::CamelCase => ascii_capital_in_place(text, i, false, true),
                _ => ascii_lower(text[i]),
            },
    )
}

/// Whether a style maps the characters of a text one by one, and leaves the words where they are.
pub open spec fn maps_characters(capitalization: StringCapitalization, use_joiner: bool) -> bool {
    ||| capitalization is LowerCase
    ||| capitalization is UpperCase
    ||| !use_joiner && !(capitalization is HeadlineCase)
}

/// A text capitalized, its words put together with `joiner`.
fn capitalize_joined(text: &str, capitalization: StringCapitalization, joiner: &str) -> (r: String)
    ensures
        r@ == capitalized(text@, capitalization, true, joiner@),
        ascii(text@) && maps_characters(capitalization, true) ==> r@ == ascii_cased(
            text@,
            capitalization,
        ),
{
    match capitalization {
        StringCapitalization::LowerCase => to_lower_case(text),
        StringCapitalization::UpperCase => to_upper_case(text),
        StringCapitalization::CapitalCase => convert_words(
            text,
            WordBoundaries::Defaults,
            WordPattern::Capital,
            joiner,
        ),
        StringCapitalization::HeadlineCase => {
            // Word boundaries such as those of "AlphaNumeric" are found as in the other styles, before the short words
            // are put into lower case and the joiner takes the place of the spaces
            let spaced = convert_words(text, WordBoundaries::Defaults, WordPattern::Capital, " ");
            proof {
                reveal_strlit(" ");
                assert(" "@ == seq![' ']);
            }
            let headline = to_title_case(spaced.as_str());
            proof {
                let words = spaced_words(grapheme_clusters(headline@), Seq::empty());
                assert(cased_words(words, WordPattern::Unchanged) == words);
            }
            convert_words(
                headline.as_str(),
                WordBoundaries::Spaces,
                WordPattern::Unchanged,
                joiner,
            )
        },
        StringCapitalization::SentenceCase => convert_words(
            text,
            WordBoundaries::Defaults,
            WordPattern::Sentence,
            joiner,
        ),
        StringCapitalization::CamelCase => convert_words(
            text,
            WordBoundaries::Defaults,
            WordPattern::Camel,
            joiner,
        ),
    }
}

/// A text capitalized without a change to what stands between its words.
fn capitalize_unjoined(text: &str, capitalization: StringCapitalization) -> (r: String)
    ensures
        forall|joiner: Seq<char>|
            r@ == #[trigger] capitalized(text@, capitalization, false, joiner),
        ascii(text@) && maps_characters(capitalization, false) ==> r@ == ascii_cased(
            text@,
            capitalization,
        ),
{
    match capitalization {
        StringCapitalization::LowerCase => to_lower_case(text),
        StringCapitalization::UpperCase => to_upper_case(text),
        StringCapitalization::CapitalCase => capitalize_in_place(text, true, false),
        StringCapitalization::HeadlineCase => to_title_case(text),
        StringCapitalization::SentenceCase => {
            let chars = chars_of(text);
            let n = chars.len();
            let start = find_initial_word(&chars);
            let mut result = string_of(&chars, 0, start);
            proof {
                lemma_before_initial_word(text@);
            }
            assert(text@.take(start as int) == text@.subrange(0, start as int));
            if start < n {
                result.append(char_to_upper_case(chars[start]).as_str());
                assert(text@.skip(start + 1) == text@.subrange(start + 1, n as int));
                result.append(to_lower_case(string_of(&chars, start + 1, n).as_str()).as_str());
            } else {
                assert(text@.take(start as int) == text@);
            }
            result
        },
        StringCapitalization::CamelCase => capitalize_in_place(text, false, true),
    }
}

/// Converts a string's capitalization style to another of the common upper and lower case patterns,
/// optionally joining words with a chosen separator.
///
/// With `use_joiner` the string is split into words and reconnected with `joiner`. Otherwise the
/// existing word structure separators are preserved.
pub fn string_capitalization<A>(
    string: Item<String, A>,
    capitalization: Item<StringCapitalization, A>,
    use_joiner: Item<bool, A>,
    joiner: Item<String, A>,
) -> (r: Item<String, A>)
    ensures
        r.element@ == capitalized(
            string.element@,
            capitalization.element,
            use_joiner.element,
            joiner.element@,
        ),
        ascii(string.element@) && maps_characters(capitalization.element, use_joiner.element)
            ==> r.element@ == ascii_cased(string.element@, capitalization.element),
        r.attributes == string.attributes,
{
    let (text, attributes) = string.into_parts();
    let result = if use_joiner.element {
        capitalize_joined(text.as_str(), capitalization.element, joiner.element.as_str())
    } else {
        capitalize_unjoined(text.as_str(), capitalization.element)
    };
    Item::from_parts(result, attributes)
}

/// Lower case and upper case do not depend on a joiner.
pub proof fn lemma_simple_cases_ignore_joiner(
    text: Seq<char>,
    use_joiner: bool,
    joiner: Seq<char>,
    other: Seq<char>,
)
    ensures
        capitalized(text, StringCapitalization::LowerCase, use_joiner, joiner) == capitalized(
            text,
            StringCapitalization::LowerCase,
            false,
            other,
        ),
        capitalized(text, StringCapitalization::UpperCase, use_joiner, joiner) == capitalized(
            text,
            StringCapitalization::UpperCase,
            false,
            other,
        ),
{
}

/// Without a joiner, what stands between words is preserved: every such character stays as it is, and
/// a text of nothing else is not changed.
pub proof fn lemma_separators_preserved(text: Seq<char>, capital_first: bool, lower_inner: bool)
    ensures
        forall|i: int|
            0 <= i < text.len() && separates_words(text[i]) ==> #[trigger] capitals_in_place(
                text,
                capital_first,
                lower_inner,
            )[i] == seq![text[i]],
        (forall|i: int| 0 <= i < text.len() ==> separates_words(#[trigger] text[i]))
            ==> capitals_in_place(text, capital_first, lower_inner).flatten() == text,
    decreases text.len(),
{
    let cased = capitals_in_place(text, capital_first, lower_inner);
    if text.len() > 0 && forall|i: int|
        0 <= i < text.len() ==> separates_words(#[trigger] text[i]) {
        let front = text.drop_last();
        assert forall|i: int| 0 <= i < front.len() implies separates_words(#[trigger] front[i]) by {
            assert(front[i] == text[i]);
        }
        lemma_separators_preserved(front, capital_first, lower_inner);
        assert(cased == capitals_in_place(front, capital_first, lower_inner).push(
            seq![text.last()],
        ));
        capitals_in_place(front, capital_first, lower_inner).lemma_flatten_push(
            seq![text.last()],
        );
        assert(front + seq![text.last()] == text);
    }
}

/// Without a joiner, the initial word of a text in camel case gets no capital, and every later word
/// does; in capital case every word does.
pub proof fn lemma_initial_word(text: Seq<char>, i: int)
    requires
        0 <= i < text.len(),
        !separates_words(text[i]),
        i == 0 || separates_words(text[i - 1]),
    ensures
        char_role(text, i, true) == CharRole::Initial,
        char_role(text, i, false) == if i == initial_word(text) {
            CharRole::Inner
        } else {
            CharRole::Initial
        },
{
    lemma_before_initial_word(text);
}

/// Before the initial word stand separators alone, and behind them the word.
proof fn lemma_before_initial_word(text: Seq<char>)
    ensures
        initial_word(text) <= text.len(),
        forall|j: int| 0 <= j < initial_word(text) ==> separates_words(#[trigger] text[j]),
        initial_word(text) < text.len() ==> !separates_words(text[initial_word(text) as int]),
    decreases text.len(),
{
    if text.len() > 0 && separates_words(text[0]) {
        let rest = text.skip(1);
        lemma_before_initial_word(rest);
        assert forall|j: int| 0 <= j < initial_word(text) implies separates_words(
            #[trigger] text[j],
        ) by {
            if j > 0 {
                assert(rest[j - 1] == text[j]);
            }
        }
    }
}

/// A style that maps the characters of an ASCII text one by one changes letters only, and of them the
/// case only: what stands between words stays, and so does the text but for the case of its letters.
pub proof fn lemma_ascii_case_changes_letters(
    text: Seq<char>,
    capitalization: StringCapitalization,
    i: int,
)
    requires
        ascii(text),
        0 <= i < text.len(),
    ensures
        ({
            let cased = ascii_cased(text, capitalization);
            &&& cased.len() == text.len()
            &&& ascii_lower(cased[i]) == ascii_lower(text[i])
            &&& !('a' <= text[i] <= 'z' || 'A' <= text[i] <= 'Z') ==> cased[i] == text[i]
            &&& separates_words(text[i]) ==> cased[i] == text[i]
        }),
{
}

/// Lower case and upper case are those of the whole text, and headline case without a joiner is its title
/// case, whatever the joiner.
pub proof fn lemma_whole_text_cases(text: Seq<char>, use_joiner: bool, joiner: Seq<char>)
    ensures
        capitalized(text, StringCapitalization::LowerCase, use_joiner, joiner) == lower_case(text),
        capitalized(text, StringCapitalization::UpperCase, use_joiner, joiner) == upper_case(text),
        capitalized(text, StringCapitalization::HeadlineCase, false, joiner) == title_case(text),
{
}

/// With a joiner, the words of a text are put together with the joiner that is given. They are the words
/// at the default boundaries, as many and in the same order: each with a capital in capital case, the
/// first alone in sentence case, and all but the first in camel case, the others in lower case.
pub proof fn lemma_words_joined(text: Seq<char>, joiner: Seq<char>, cased: Seq<Seq<char>>)
    requires
        cased.len() == default_words(text).len(),
    ensures
        (forall|i: int|
            0 <= i < cased.len() ==> #[trigger] cased[i] == capital_word(default_words(text)[i]))
            ==> capitalized(text, StringCapitalization::CapitalCase, true, joiner) == joined(
            cased,
            joiner,
        ),
        (forall|i: int|
            0 <= i < cased.len() ==> #[trigger] cased[i] == if i == 0 {
                capital_word(default_words(text)[i])
            } else {
                lower_case(default_words(text)[i])
            }) ==> capitalized(text, StringCapitalization::SentenceCase, true, joiner) == joined(
            cased,
            joiner,
        ),
        (forall|i: int|
            0 <= i < cased.len() ==> #[trigger] cased[i] == if i == 0 {
                lower_case(default_words(text)[i])
            } else {
                capital_word(default_words(text)[i])
            }) ==> capitalized(text, StringCapitalization::CamelCase, true, joiner) == joined(
            cased,
            joiner,
        ),
{
    let words = default_words(text);
    if forall|i: int| 0 <= i < cased.len() ==> #[trigger] cased[i] == capital_word(words[i]) {
        assert(cased_words(words, WordPattern::Capital) =~= cased);
    }
    if forall|i: int|
        0 <= i < cased.len() ==> #[trigger] cased[i] == if i == 0 {
            capital_word(words[i])
        } else {
            lower_case(words[i])
        } {
        assert(cased_words(words, WordPattern::Sentence) =~= cased);
    }
    if forall|i: int|
        0 <= i < cased.len() ==> #[trigger] cased[i] == if i == 0 {
            lower_case(words[i])
        } else {
            capital_word(words[i])
        } {
        assert(cased_words(words, WordPattern::Camel) =~= cased);
    }
}

/// A word with a capital is its first character in upper case and all behind it in lower case.
pub proof fn lemma_capital_word(word: Seq<char>)
    ensures
        grapheme_clusters(word).len() == 0 ==> capital_word(word).len() == 0,
        grapheme_clusters(word).len() > 0 ==> capital_word(word) == upper_case(
            grapheme_clusters(word)[0],
        ) + lower_case(grapheme_clusters(word).drop_first().flatten()),
{
    let clusters = grapheme_clusters(word);
    if clusters.len() > 0 {
        assert(clusters.skip(1) == clusters.drop_first());
    }
}

/// In headline case with a joiner, the joiner stands between the words that the title case of the
/// capitalized words holds between its spaces.
pub proof fn lemma_headline_joined(text: Seq<char>, joiner: Seq<char>)
    ensures
        ({
            let spaced = capitalized(text, StringCapitalization::CapitalCase, true, seq![' ']);
            let words = spaced_words(grapheme_clusters(title_case(spaced)), Seq::empty());
            capitalized(text, StringCapitalization::HeadlineCase, true, joiner) == joined(
                words,
                joiner,
            )
        }),
{
}

/// With any two joiners, the words of a style are the same: what the one stands between, the other does.
pub proof fn lemma_joiner_stands_between_words(
    text: Seq<char>,
    style: StringCapitalization,
    joiner: Seq<char>,
    other: Seq<char>,
)
    requires
        style is CapitalCase || style is SentenceCase || style is CamelCase || style is HeadlineCase,
    ensures
        exists|words: Seq<Seq<char>>|
            capitalized(text, style, true, joiner) == #[trigger] joined(words, joiner)
                && capitalized(text, style, true, other) == #[trigger] joined(words, other) && (style
                is HeadlineCase || words.len() == default_words(text).len()),
{
    let words = match style {
        StringCapitalization::CapitalCase => cased_words(default_words(text), WordPattern::Capital),
        StringCapitalization::SentenceCase => cased_words(
            default_words(text),
            WordPattern::Sentence,
        ),
        StringCapitalization::CamelCase => cased_words(default_words(text), WordPattern::Camel),
        _ => spaced_words(
            grapheme_clusters(title_case(converted(text, WordPattern::Capital, seq![' ']))),
            Seq::empty(),
        ),
    };
    assert(capitalized(text, style, true, joiner) == joined(words, joiner));
    assert(capitalized(text, style, true, other) == joined(words, other));
}

/// What holds no space is one word, unless it is nothing, and a space between two texts keeps their words
/// apart.
pub proof fn lemma_spaces_separate(first: Seq<Seq<char>>, second: Seq<Seq<char>>, word: Seq<char>)
    ensures
        spaced_words(first + seq![seq![' ']] + second, word) == spaced_words(first, word)
            + spaced_words(second, Seq::empty()),
        (forall|i: int| 0 <= i < first.len() ==> #[trigger] first[i] != seq![' ']) ==> spaced_words(
            first,
            word,
        ) == if (word + first.flatten()).len() == 0 {
            Seq::<Seq<char>>::empty()
        } else {
            seq![word + first.flatten()]
        },
    decreases first.len(),
{
    let space = seq![' '];
    let all = first + seq![space] + second;
    if first.len() == 0 {
        assert(all[0] == space);
        assert(all.skip(1) == second);
        assert(word + first.flatten() == word);
    } else {
        let rest = first.skip(1);
        assert(all.skip(1) == rest + seq![space] + second);
        assert(all[0] == first[0]);
        assert(first == seq![first[0]] + rest);
        vstd::seq_lib::lemma_flatten_concat(seq![first[0]], rest);
        seq![first[0]].lemma_flatten_one_element();
        assert(word + (first[0] + rest.flatten()) == word + first[0] + rest.flatten());
        if first[0] == space {
            lemma_spaces_separate(rest, second, Seq::empty());
            let done = if word.len() == 0 {
                Seq::<Seq<char>>::empty()
            } else {
                seq![word]
            };
            assert(done + (spaced_words(rest, Seq::empty()) + spaced_words(second, Seq::empty()))
                == done + spaced_words(rest, Seq::empty()) + spaced_words(second, Seq::empty()));
        } else {
            lemma_spaces_separate(rest, second, word + first[0]);
            if forall|i: int| 0 <= i < first.len() ==> #[trigger] first[i] != space {
                assert forall|i: int| 0 <= i < rest.len() implies #[trigger] rest[i] != space by {
                    assert(rest[i] == first[i + 1]);
                }
            }
        }
    }
}

/// Without a joiner, a text in sentence case is what stands before its initial word, that word's first
/// character in upper case, and all behind that in lower case. A text of separators alone stays.
pub proof fn lemma_sentence_in_place(before: Seq<char>, c: char, rest: Seq<char>, joiner: Seq<char>)
    requires
        forall|i: int|
            0 <= i < before.len() ==> white_space(#[trigger] before[i]) || before[i] == '_'
                || before[i] == '-',
    ensures
        !white_space(c) && c != '_' && c != '-' ==> capitalized(
            before + seq![c] + rest,
            StringCapitalization::SentenceCase,
            false,
            joiner,
        ) == before + upper_case_char(c) + lower_case(rest),
        capitalized(before, StringCapitalization::SentenceCase, false, joiner) == before,
    decreases before.len(),
{
    let text = before + seq![c] + rest;
    let n = before.len() as int;
    lemma_before_initial_word(text);
    lemma_before_initial_word(before);
    if initial_word(before) < before.len() {
        assert(separates_words(before[initial_word(before) as int]));
    }
    if !white_space(c) && c != '_' && c != '-' {
        assert(text[n] == c);
        if initial_word(text) < n {
            assert(text[initial_word(text) as int] == before[initial_word(text) as int]);
        }
        assert(initial_word(text) == n);
        assert(text.take(n) == before);
        assert(text.skip(n + 1) == rest);
    }
}

/// Without a joiner, capital case and camel case work character by character. What stands between words
/// stays. The first character of a word is put into upper case, but for the initial word in camel case,
/// and every other is left in capital case and put into lower case in camel case.
pub proof fn lemma_capitals_in_place(text: Seq<char>, joiner: Seq<char>, cased: Seq<Seq<char>>, camel: bool)
    requires
        cased.len() == text.len(),
        forall|i: int|
            0 <= i < text.len() ==> #[trigger] cased[i] == {
                let between = |j: int| white_space(text[j]) || text[j] == '_' || text[j] == '-';
                let starts = i == 0 || between(i - 1);
                let later = exists|j: int| 0 <= j < i && !#[trigger] between(j);
                if between(i) {
                    seq![text[i]]
                } else if starts && (!camel || later) {
                    upper_case_char(text[i])
                } else if camel {
                    lower_case_char(text[i])
                } else {
                    seq![text[i]]
                }
            },
    ensures
        capitalized(
            text,
            if camel {
                StringCapitalization::CamelCase
            } else {
                StringCapitalization::CapitalCase
            },
            false,
            joiner,
        ) == cased.flatten(),
{
    let between = |j: int| white_space(text[j]) || text[j] == '_' || text[j] == '-';
    let expected = capitals_in_place(text, !camel, camel);
    assert forall|i: int| 0 <= i < text.len() implies #[trigger] expected[i] == cased[i] by {
        if exists|j: int| 0 <= j < i && !#[trigger] between(j) {
            let j = choose|j: int| 0 <= j < i && !#[trigger] between(j);
            assert(!separates_words(text[j]));
            assert(word_begun(text, i));
        }
        if word_begun(text, i) {
            let j = choose|j: int| 0 <= j < i && !separates_words(#[trigger] text[j]);
            assert(!between(j));
        }
    }
    assert(expected =~= cased);
}

/// White space, underscores and hyphens stand between words. Of the other characters, one that begins the
/// text or stands behind one of those begins a word, and gets a capital if capitals are for the initial
/// word too or another word came before. All the rest are inside their words.
pub proof fn lemma_roles(text: Seq<char>, i: int, capital_first: bool)
    requires
        0 <= i < text.len(),
    ensures
        ({
            let between = |c: char| white_space(c) || c == '_' || c == '-';
            let role = char_role(text, i, capital_first);
            &&& between(text[i]) ==> role is Separator
            &&& !between(text[i]) && i > 0 && !between(text[i - 1]) ==> role is Inner
            &&& !between(text[i]) && (i == 0 || between(text[i - 1])) && capital_first
                ==> role is Initial
            &&& !between(text[i]) && i > 0 && between(text[i - 1]) && !between(text[0])
                ==> role is Initial
            &&& !between(text[i]) && !capital_first && (forall|j: int|
                0 <= j < i ==> between(#[trigger] text[j])) ==> role is Inner
        }),
{
    if i > 0 && !separates_words(text[0]) {
        assert(word_begun(text, i));
    }
    let between = |c: char| white_space(c) || c == '_' || c == '-';
    if forall|j: int| 0 <= j < i ==> between(#[trigger] text[j]) {
        if word_begun(text, i) {
            let j = choose|j: int| 0 <= j < i && !separates_words(#[trigger] text[j]);
            assert(between(text[j]));
        }
    }
}

} // verus!
