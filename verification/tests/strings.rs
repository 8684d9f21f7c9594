use text_nodes::graphemes::{
    pad_clusters, reverse_clusters, slice_clusters, truncate_clusters, SignedIndex,
};
use text_nodes::item::Item;
use text_nodes::strings::{
    as_string, measure_part, string_concatenate, string_contains, string_escape, string_find_index,
    string_join, string_length, string_occurrences, string_pad, string_repeat, string_replace,
    string_reverse, string_slice, string_split, string_trim, string_truncate, string_value,
    text_before, trim_text,
};
use text_nodes::text::is_white_space;
use SignedIndex::{Negative, Positive, Zero};

type Attributes = Vec<(String, u8)>;

fn plain<T>(element: T) -> Item<T, u8> {
    Item::new_from_element(element)
}

fn text(s: &str) -> Item<String, u8> {
    plain(s.to_string())
}

/// A string that carries an attribute of its own.
fn tagged(s: &str) -> Item<String, u8> {
    Item::from_parts(s.to_string(), tag())
}

fn tag() -> Attributes {
    vec![("tag".to_string(), 7)]
}

fn list(strings: &[&str]) -> Vec<Item<String, u8>> {
    strings.iter().map(|s| text(s)).collect()
}

fn elements(items: Vec<Item<String, u8>>) -> Vec<String> {
    items.into_iter().map(|item| item.element).collect()
}

fn clusters(strings: &[&str]) -> Vec<String> {
    strings.iter().map(|s| s.to_string()).collect()
}

fn slice(s: &str, start: SignedIndex, end: SignedIndex) -> String {
    string_slice(text(s), plain(start), plain(end)).element
}

fn truncate(s: &str, length: u32, suffix: &str) -> String {
    string_truncate(text(s), plain(length), text(suffix)).element
}

fn trim(s: &str, start: bool, end: bool) -> String {
    string_trim(text(s), plain(start), plain(end)).element
}

fn pad(s: &str, length: u32, padding: &str, up_to: &str, from_end: bool) -> String {
    string_pad(text(s), plain(length), text(padding), text(up_to), plain(from_end)).element
}

fn contains(s: &str, substring: &str, at_start: bool, at_end: bool) -> bool {
    string_contains(text(s), text(substring), plain(at_start), plain(at_end)).element
}

fn index(s: &str, substring: &str, from_end: bool) -> i128 {
    string_find_index(text(s), text(substring), plain(from_end)).element
}

fn count(s: &str, substring: &str, overlapping: bool) -> usize {
    string_occurrences(text(s), text(substring), plain(overlapping)).element
}

fn split(s: &str, delimiter: &str, escaping: bool) -> Vec<String> {
    elements(string_split(text(s), text(delimiter), plain(escaping)))
}

fn join(strings: &[&str], separator: &str, escaping: bool) -> String {
    string_join(list(strings), text(separator), plain(escaping)).element
}

fn replace(s: &str, from: &str, to: &str) -> String {
    string_replace(text(s), text(from), text(to)).element
}

fn repeat(s: &str, times: u32, separator: &str, escaping: bool) -> String {
    string_repeat(text(s), plain(times), text(separator), plain(escaping)).element
}

#[test]
fn values_pass_through() {
    let value = string_value(tagged("anything"));
    assert_eq!(value.element, "anything");
    assert_eq!(value.attributes, tag());
    let value = as_string(tagged("x"));
    assert_eq!(value.element, "x");
    assert_eq!(value.attributes, tag());
}

#[test]
fn results_carry_the_attributes_of_their_string() {
    assert_eq!(string_concatenate(tagged("a"), text("b")).attributes, tag());
    assert_eq!(string_replace(tagged("a"), text("a"), text("b")).attributes, tag());
    assert_eq!(
        string_slice(tagged("a"), plain(SignedIndex::Zero), plain(SignedIndex::Zero)).attributes,
        tag()
    );
    assert_eq!(string_truncate(tagged("abc"), plain(1), text("")).attributes, tag());
    assert_eq!(string_trim(tagged(" a"), plain(true), plain(true)).attributes, tag());
    assert_eq!(string_escape(tagged("a"), plain(true)).attributes, tag());
    assert_eq!(string_reverse(tagged("ab")).attributes, tag());
    assert_eq!(string_repeat(tagged("a"), plain(2), text(""), plain(false)).attributes, tag());
    assert_eq!(
        string_pad(tagged("a"), plain(3), text("#"), text(""), plain(false)).attributes,
        tag()
    );
    assert_eq!(
        string_contains(tagged("a"), text("a"), plain(false), plain(false)).attributes,
        tag()
    );
    assert_eq!(string_find_index(tagged("a"), text("a"), plain(false)).attributes, tag());
    assert_eq!(string_occurrences(tagged("a"), text("a"), plain(false)).attributes, tag());
    assert_eq!(string_length(tagged("a")).attributes, tag());
}

#[test]
fn lists_of_strings_have_no_attributes() {
    let parts = string_split(tagged("a,b"), tagged(","), plain(false));
    assert!(parts.iter().all(|part| part.attributes.is_empty()));
    let whole = string_join(vec![tagged("a"), tagged("b")], tagged(","), plain(false));
    assert!(whole.attributes.is_empty());
}

#[test]
fn concatenation_appends() {
    assert_eq!(string_concatenate(text("ab"), text("cd")).element, "abcd");
    assert_eq!(string_concatenate(text(""), text("")).element, "");
}

#[test]
fn replacement_changes_every_occurrence() {
    assert_eq!(replace("this is old", "is", "an"), "than an old");
    assert_eq!(replace("aaaa", "aa", "b"), "bb");
    assert_eq!(replace("aaa", "aa", "b"), "ba");
    assert_eq!(replace("abc", "", "-"), "-a-b-c-");
    assert_eq!(replace("", "", "-"), "-");
    assert_eq!(replace("日本語", "本", "x"), "日x語");
}

#[test]
fn replacement_agrees_with_the_standard_library() {
    for s in ["", "a", "aa", "aaa", "abcabc", "日本日本", "xyx"] {
        for from in ["", "a", "aa", "abc", "日本", "x", "本日"] {
            for to in ["", "b", "aa", "語"] {
                assert_eq!(replace(s, from, to), s.replace(from, to), "{s:?} {from:?} {to:?}");
            }
        }
    }
}

#[test]
fn replacement_of_a_substring_with_itself_or_of_an_absent_one_keeps_the_string() {
    assert_eq!(replace("a--b--c", "--", "--"), "a--b--c");
    assert_eq!(replace("abc", "", ""), "abc");
    assert_eq!(replace("abc", "x", "yyy"), "abc");
}

#[test]
fn slices_count_from_both_ends() {
    assert_eq!(slice("graphite", Positive(2), Positive(5)), "aph");
    assert_eq!(slice("graphite", Zero, Positive(5)), "graph");
    assert_eq!(slice("graphite", Positive(5), Positive(8)), "ite");
    assert_eq!(slice("graphite", Negative(3), Positive(8)), "ite");
    assert_eq!(slice("graphite", Zero, Negative(3)), "graph");
    assert_eq!(slice("graphite", Negative(4), Negative(2)), "hi");
    assert_eq!(slice("graphite", Negative(100), Positive(2)), "gr");
    assert_eq!(slice("graphite", Positive(6), Positive(100)), "te");
}

#[test]
fn slices_that_start_at_or_behind_their_end_are_empty() {
    assert_eq!(slice("abc", Positive(2), Positive(2)), "");
    assert_eq!(slice("abc", Positive(2), Positive(1)), "");
    assert_eq!(slice("abc", Positive(1), Negative(2)), "");
    assert_eq!(slice("abc", Zero, Negative(100)), "");
    assert_eq!(slice("abc", Negative(0), Positive(3)), "");
    assert_eq!(slice("abc", Zero, Positive(0)), "");
    assert_eq!(slice("hello", Positive(2), Zero), "");
    assert_eq!(slice("hello", Zero, Zero), "");
    assert_eq!(slice("hello", Negative(2), Zero), "");
}

#[test]
fn slice_up_to_the_length_or_behind_it_is_the_string() {
    for s in ["", "a", "graphite", "e\u{301}a", "👨‍👩‍👧!"] {
        let end = Positive(usize::MAX);
        assert_eq!(slice(s, Zero, end), s);
        assert_eq!(slice(s, Zero, Positive(s.chars().count())), s);
        for at in 0..5 {
            assert_eq!(slice(s, Zero, Positive(at)) + &slice(s, Positive(at), end), s);
        }
    }
}

#[test]
fn slices_keep_characters_whole() {
    assert_eq!(slice("e\u{301}a", Positive(1), Positive(2)), "a");
    assert_eq!(slice("👨‍👩‍👧x", Zero, Positive(1)), "👨‍👩‍👧");
    assert_eq!(slice("🇩🇪🇫🇷", Negative(1), Positive(2)), "🇫🇷");
    assert_eq!(slice_clusters(&clusters(&["ab", "c"]), Zero, Positive(1)), "ab");
}

#[test]
fn truncation_appends_the_suffix_within_the_limit() {
    assert_eq!(truncate("hello world", 5, "…"), "hell…");
    assert_eq!(truncate("hello", 5, "…"), "hello");
    assert_eq!(truncate("hello", 4, ""), "hell");
    assert_eq!(truncate("hello", 3, "..."), "...");
    assert_eq!(truncate("hello", 2, "..."), "..");
    assert_eq!(truncate("hello", 0, "…"), "");
    assert_eq!(truncate("", 0, "…"), "");
}

#[test]
fn truncation_counts_characters_as_they_are_seen() {
    assert_eq!(truncate("e\u{301}e\u{301}e\u{301}", 2, "…"), "e\u{301}…");
    assert_eq!(truncate("👨‍👩‍👧👨‍👩‍👧", 2, "…"), "👨‍👩‍👧👨‍👩‍👧");
    assert_eq!(truncate("👨‍👩‍👧👨‍👩‍👧", 1, ""), "👨‍👩‍👧");
    assert_eq!(
        truncate_clusters("abc".to_string(), &clusters(&["a", "bc"]), &clusters(&["-"]), 1),
        "-"
    );
}

#[test]
fn truncated_strings_have_exactly_the_characters_allowed() {
    for limit in 0..6u32 {
        let short = truncate("abcdefgh", limit, "..");
        assert_eq!(short.chars().count(), limit as usize);
    }
}

#[test]
fn trimming_removes_white_space_where_asked() {
    assert_eq!(trim(" \t\na b\r\n ", true, true), "a b");
    assert_eq!(trim(" a ", true, false), "a ");
    assert_eq!(trim(" a ", false, true), " a");
    assert_eq!(trim(" a ", false, false), " a ");
    assert_eq!(trim(" \u{3000} ", true, true), "");
    assert_eq!(trim("", true, true), "");
    assert_eq!(trim_text("\u{a0}x\u{2003}", true, true), "x");
}

#[test]
fn trimming_twice_is_trimming_once_in_any_order() {
    for s in ["", " ", " a", "a ", " a b ", "\n\t", "x"] {
        let once = trim(s, true, true);
        assert_eq!(trim(&once, true, true), once);
        assert_eq!(trim(&trim(s, true, false), false, true), once);
        assert_eq!(trim(&trim(s, false, true), true, false), once);
        assert_eq!(once, s.trim());
    }
}

#[test]
fn white_space_is_that_of_the_standard_library() {
    for c in '\0'..=char::MAX {
        assert_eq!(is_white_space(c), c.is_whitespace(), "{c:?}");
    }
}

#[test]
fn reversal_reads_back_to_front() {
    assert_eq!(string_reverse(text("Backwards text")).element, "txet sdrawkcaB");
    assert_eq!(string_reverse(text("")).element, "");
    assert_eq!(string_reverse(text("e\u{301}a")).element, "ae\u{301}");
    assert_eq!(string_reverse(text("👨‍👩‍👧!")).element, "!👨‍👩‍👧");
    assert_eq!(reverse_clusters(&clusters(&["ab", "c"])), "cab");
}

#[test]
fn reversal_twice_gives_the_string_back() {
    for s in ["", "abc", "e\u{301}a", "👨‍👩‍👧 ok"] {
        assert_eq!(string_reverse(string_reverse(text(s))).element, s);
    }
}

#[test]
fn repetition_puts_separators_between() {
    assert_eq!(repeat("ab", 3, "\\n", true), "ab\nab\nab");
    assert_eq!(repeat("ab", 3, "\\n", false), "ab\\nab\\nab");
    assert_eq!(repeat("ab", 1, ",", true), "ab");
    assert_eq!(repeat("ab", 0, ",", true), "");
    assert_eq!(repeat("", 3, "-", true), "--");
    assert_eq!(repeat("ab", 4, "--", false).len(), 4 * 2 + 3 * 2);
}

#[test]
fn padding_fills_to_the_target_length() {
    assert_eq!(pad("7", 3, "0", "", false), "007");
    assert_eq!(pad("7", 3, "0", "", true), "700");
    assert_eq!(pad("x", 6, "abc", "", false), "abcabx");
    assert_eq!(pad("x", 6, "abc", "", true), "xabcab");
    assert_eq!(pad("long enough", 3, "#", "", false), "long enough");
    assert_eq!(pad("abc", 3, "#", "", false), "abc");
    assert_eq!(pad("abc", 10, "", "", false), "abc");
    assert_eq!(pad("", 2, "e\u{301}", "", false), "e\u{301}e\u{301}");
}

#[test]
fn padding_can_measure_only_the_portion_up_to_a_substring() {
    assert_eq!(pad("7.25", 3, "0", ".", false), "007.25");
    assert_eq!(pad("7.25", 4, "0", ".", true), "7.2500");
    assert_eq!(pad("1.2.3", 3, "0", ".", false), "001.2.3");
    assert_eq!(pad("1.2.3", 3, "0", ".", true), "1.2.300");
    assert_eq!(pad("1234.5", 3, "0", ".", false), "1234.5");
    assert_eq!(pad("1.2345", 3, "0", ".", true), "1.2345");
    assert_eq!(pad("725", 5, "0", ".", false), "00725");
    assert_eq!(pad("725", 5, "0", ".", true), "72500");
    assert_eq!(
        pad_clusters("x".to_string(), 1, 3, &clusters(&["ab"]), false),
        "ababx"
    );
}

#[test]
fn measured_parts_lie_before_the_first_or_behind_the_last_occurrence() {
    assert_eq!(measure_part("a--b--c", "--", false), "a");
    assert_eq!(measure_part("a--b--c", "--", true), "c");
    assert_eq!(measure_part("aaa", "aa", false), "");
    assert_eq!(measure_part("aaa", "aa", true), "");
    assert_eq!(measure_part("abc", "x", true), "abc");
    assert_eq!(measure_part("abc", "", false), "abc");
}

#[test]
fn containment_can_be_restricted_to_the_ends() {
    assert!(contains("hello world", "lo wo", false, false));
    assert!(!contains("hello world", "low", false, false));
    assert!(contains("hello", "he", true, false));
    assert!(!contains("hello", "lo", true, false));
    assert!(contains("hello", "lo", false, true));
    assert!(!contains("hello", "he", false, true));
    assert!(contains("abcab", "ab", true, true));
    assert!(!contains("abc", "ab", true, true));
    assert!(contains("abc", "", false, false));
    assert!(contains("", "", true, true));
    assert!(!contains("ab", "abc", false, true));
}

#[test]
fn indices_count_characters() {
    assert_eq!(index("hello", "l", false), 2);
    assert_eq!(index("hello", "l", true), 3);
    assert_eq!(index("hello", "x", false), -1);
    assert_eq!(index("hello", "x", true), -1);
    assert_eq!(index("e\u{301}ab", "b", false), 2);
    assert_eq!(index("👨‍👩‍👧ab", "a", false), 1);
    assert_eq!(index("aaa", "aa", true), 1);
}

#[test]
fn printable_ascii_is_one_character_each() {
    let ascii: String = (' '..='~').collect();
    assert_eq!(string_length(text(&ascii)).element, 95);
    for (at, c) in ascii.char_indices() {
        assert_eq!(slice(&ascii, Positive(at), Positive(at + 1)), c.to_string());
    }
}

#[test]
fn the_text_from_a_found_index_on_starts_with_the_substring() {
    for s in ["", "a", "abab", "x aay aa", "mississippi"] {
        for p in ["", "a", "ab", "aa", "ss", "zz"] {
            let places: Vec<i128> =
                (0..=s.len()).filter(|i| s[*i..].starts_with(p)).map(|i| i as i128).collect();
            assert_eq!(index(s, p, false), places.first().copied().unwrap_or(-1));
            assert_eq!(index(s, p, true), places.last().copied().unwrap_or(-1));
        }
    }
}

#[test]
fn empty_substrings_are_found_at_the_ends() {
    assert_eq!(index("hello", "", false), 0);
    assert_eq!(index("hello", "", true), 5);
    assert_eq!(index("", "", true), 0);
    assert_eq!(text_before("abcb", "b", true), Some("abc".to_string()));
    assert_eq!(text_before("abcb", "b", false), Some("a".to_string()));
    assert_eq!(text_before("abcb", "x", false), None);
}

#[test]
fn occurrences_are_counted_with_or_without_overlap() {
    assert_eq!(count("aaaa", "aa", false), 2);
    assert_eq!(count("aaaa", "aa", true), 3);
    assert_eq!(count("abababa", "aba", false), 2);
    assert_eq!(count("abababa", "aba", true), 3);
    assert_eq!(count("abcabcabd", "abcabd", true), 1);
    assert_eq!(count("日本日本日", "日本日", true), 2);
    assert_eq!(count("abc", "", true), 0);
    assert_eq!(count("abc", "", false), 0);
    assert_eq!(count("", "a", true), 0);
    assert_eq!(count("a", "aa", true), 0);
}

#[test]
fn overlapping_occurrences_agree_with_a_sliding_window() {
    let texts = ["", "a", "aab", "aabaabaa", "abacabadabacaba", "mississippi", "aaaaaaa"];
    let patterns = ["a", "aa", "ab", "aba", "abacaba", "issi", "aabaa", "b"];
    for s in texts {
        for p in patterns {
            let window = (0..s.len()).filter(|i| s[*i..].starts_with(p)).count();
            assert_eq!(count(s, p, true), window, "{s:?} {p:?}");
            assert_eq!(count(s, p, false), s.matches(p).count(), "{s:?} {p:?}");
        }
    }
}

#[test]
fn searches_agree_on_whether_a_substring_occurs() {
    for s in ["", "a", "abab", "xaay", "日本"] {
        for p in ["a", "ab", "aa", "本", "zz"] {
            let found = contains(s, p, false, false);
            assert!(contains(s, "", false, false));
            assert_eq!(found, index(s, p, false) != -1);
            assert_eq!(found, index(s, p, true) != -1);
            assert_eq!(found, count(s, p, false) >= 1);
            assert_eq!(found, count(s, p, true) >= 1);
            assert!(count(s, p, false) <= count(s, p, true));
            assert!(index(s, p, false) <= index(s, p, true));
            assert_eq!(split(s, p, false).len(), count(s, p, false) + 1);
        }
    }
}

#[test]
fn length_counts_characters_as_they_are_seen() {
    assert_eq!(string_length(text("")).element, 0);
    assert_eq!(string_length(text("hello")).element, 5);
    assert_eq!(string_length(text("e\u{301}")).element, 1);
    assert_eq!(string_length(text("👨‍👩‍👧")).element, 1);
    assert_eq!(string_length(text("\r\n")).element, 1);
}

#[test]
fn splitting_separates_at_the_delimiter() {
    assert_eq!(split("a, b, c", ", ", true), ["a", "b", "c"]);
    assert_eq!(split("a\nb", "\\n", true), ["a", "b"]);
    assert_eq!(split("a\\nb", "\\n", false), ["a", "b"]);
    assert_eq!(split("", ",", true), [""]);
    assert_eq!(split(",", ",", true), ["", ""]);
    assert_eq!(split("ab", "", true), ["", "a", "b", ""]);
    assert_eq!(split("aaa", "aa", true), ["", "a"]);
}

#[test]
fn joining_puts_the_separator_between_each_pair() {
    assert_eq!(join(&["a", "b", "c"], ", ", true), "a, b, c");
    assert_eq!(join(&["a", "b"], "\\t", true), "a\tb");
    assert_eq!(join(&["a", "b"], "\\t", false), "a\\tb");
    assert_eq!(join(&["a"], ",", true), "a");
    assert_eq!(join(&[], ",", true), "");
}

#[test]
fn joining_what_was_split_gives_the_string_back() {
    for s in ["", "a", "a,b,,c", ",", "日,本"] {
        for d in [",", ",,", "", "b", "\\n"] {
            let parts = split(s, d, true);
            let parts: Vec<&str> = parts.iter().map(|p| p.as_str()).collect();
            assert_eq!(join(&parts, d, true), s, "{s:?} {d:?}");
        }
    }
}

#[test]
fn splitting_what_was_joined_gives_back_parts_that_the_separator_keeps_apart() {
    for parts in [vec!["a", "b", "c"], vec![""], vec!["", "x", ""]] {
        assert_eq!(split(&join(&parts, ", ", true), ", ", true), parts);
    }
    // A part that holds the separator is taken apart further, and no parts come back as one.
    assert_eq!(split(&join(&["a,b", "c"], ",", true), ",", true), ["a", "b", "c"]);
    assert_eq!(split(&join(&["a", "b"], "aa", true), "aa", true), ["", "ab"]);
    assert_eq!(split(&join(&[], ",", true), ",", true), [""]);
}
