use text_nodes::casing::{char_roles, string_capitalization, CharRole, StringCapitalization};
use text_nodes::item::Item;
use CharRole::{Initial, Inner, Separator};
use StringCapitalization::{
    CamelCase, CapitalCase, HeadlineCase, LowerCase, SentenceCase, UpperCase,
};

fn item<T>(element: T) -> Item<T, ()> {
    Item::new_from_element(element)
}

fn joined(s: &str, style: StringCapitalization, joiner: &str) -> String {
    string_capitalization(item(s.to_string()), item(style), item(true), item(joiner.to_string()))
        .element
}

fn in_place(s: &str, style: StringCapitalization) -> String {
    string_capitalization(item(s.to_string()), item(style), item(false), item("+".to_string()))
        .element
}

#[test]
fn default_style_is_lower_case() {
    assert_eq!(StringCapitalization::default(), LowerCase);
}

#[test]
fn lower_and_upper_case_keep_the_structure() {
    for use_joiner in [true, false] {
        let convert = |s: &str, style| {
            string_capitalization(
                item(s.to_string()),
                item(style),
                item(use_joiner),
                item("_".to_string()),
            )
            .element
        };
        assert_eq!(convert("On the Origin-of Species", LowerCase), "on the origin-of species");
        assert_eq!(convert("On the Origin-of Species", UpperCase), "ON THE ORIGIN-OF SPECIES");
        assert_eq!(convert("straße", UpperCase), "STRASSE");
        assert_eq!(convert("ΟΔΥΣΣΕΥΣ", LowerCase), "οδυσσευς");
    }
}

#[test]
fn styles_with_a_joiner_match_their_descriptions() {
    let title = "on the origin of species";
    assert_eq!(joined(title, CapitalCase, " "), "On The Origin Of Species");
    assert_eq!(joined(title, HeadlineCase, " "), "On the Origin of Species");
    assert_eq!(joined(title, SentenceCase, " "), "On the origin of species");
    assert_eq!(joined(title, CamelCase, " "), "on The Origin Of Species");
}

#[test]
fn words_are_found_at_separators_and_case_changes() {
    assert_eq!(joined("alphaNumeric_text-with spaces", CapitalCase, "-"), "Alpha-Numeric-Text-With-Spaces");
    assert_eq!(joined("XMLHttpRequest", CamelCase, ""), "xmlHttpRequest");
    assert_eq!(joined("version2Beta", SentenceCase, " "), "Version 2 beta");
    assert_eq!(joined("  a__b--c  ", CapitalCase, "."), "A.B.C");
    assert_eq!(joined("", CapitalCase, "."), "");
}

#[test]
fn headline_rejoins_words_with_the_joiner() {
    assert_eq!(joined("theQuickBrown_foxOfThe-north", HeadlineCase, "_"), "The_Quick_Brown_Fox_of_the_North");
    assert_eq!(in_place("the quick brown fox of the north", HeadlineCase), "The Quick Brown Fox of the North");
}

#[test]
fn styles_without_a_joiner_keep_separators() {
    assert_eq!(in_place("on_the-origin of\tspecies", CapitalCase), "On_The-Origin Of\tSpecies");
    assert_eq!(in_place("oN tHE", CapitalCase), "ON THE");
    assert_eq!(in_place("ON_the-ORIGIN", CamelCase), "on_The-Origin");
    assert_eq!(in_place("oN THE Origin", SentenceCase), "On the origin");
    assert_eq!(in_place("", SentenceCase), "");
    assert_eq!(in_place("ßa", CapitalCase), "SSa");
    assert_eq!(in_place(" - _", CapitalCase), " - _");
    assert_eq!(in_place(" - _", CamelCase), " - _");
}

#[test]
fn the_initial_word_may_stand_behind_separators() {
    assert_eq!(in_place(" foo bar", CamelCase), " foo Bar");
    assert_eq!(in_place("--FOO_bar", CamelCase), "--foo_Bar");
    assert_eq!(in_place(" foo bar", CapitalCase), " Foo Bar");
    assert_eq!(in_place(" foo BAR", SentenceCase), " Foo bar");
    assert_eq!(in_place("_-\tFOO", SentenceCase), "_-\tFoo");
    assert_eq!(in_place(" - _", SentenceCase), " - _");
}

#[test]
fn roles_of_characters_in_their_words() {
    assert_eq!(char_roles("ab_c", true), [Initial, Inner, Separator, Initial]);
    assert_eq!(char_roles("ab_c", false), [Inner, Inner, Separator, Initial]);
    assert_eq!(char_roles(" a", false), [Separator, Inner]);
    assert_eq!(char_roles(" a", true), [Separator, Initial]);
    assert_eq!(char_roles("_a b", false), [Separator, Inner, Separator, Initial]);
    assert_eq!(char_roles("", true), []);
}

#[test]
fn on_ascii_only_the_case_of_letters_changes() {
    let ascii: String = ('\0'..='\u{7f}').collect();
    for style in [LowerCase, UpperCase, CapitalCase, SentenceCase, CamelCase] {
        let cased = in_place(&ascii, style);
        assert_eq!(cased.len(), ascii.len());
        assert_eq!(cased.to_ascii_lowercase(), ascii.to_ascii_lowercase());
    }
    assert_eq!(in_place(&ascii, LowerCase), ascii.to_ascii_lowercase());
    assert_eq!(in_place(&ascii, UpperCase), ascii.to_ascii_uppercase());
    assert_eq!(in_place("the_QUICK-brown\tFOX", SentenceCase), "The_quick-brown\tfox");
}
