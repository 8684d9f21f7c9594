use text_nodes::escape::{escape_string, unescape_string};
use text_nodes::item::Item;
use text_nodes::strings::string_escape;

fn unescape(s: &str) -> String {
    unescape_string(s.to_string())
}

fn escape(s: &str) -> String {
    escape_string(s.to_string())
}

#[test]
fn sequences_become_control_characters() {
    assert_eq!(unescape(r"a\nb\rc\td\0e\\f"), "a\nb\rc\td\0e\\f");
    assert_eq!(unescape(r"\\n"), r"\n");
    assert_eq!(unescape(""), "");
}

#[test]
fn unrecognized_sequences_are_preserved() {
    assert_eq!(unescape(r"\x"), r"\x");
    assert_eq!(unescape(r"\é\"), r"\é\");
    assert_eq!(unescape(r"a\"), r"a\");
    assert_eq!(unescape(r"\\\"), r"\\");
}

#[test]
fn control_characters_become_sequences() {
    assert_eq!(escape("a\nb\rc\td\0e\\f"), r"a\nb\rc\td\0e\\f");
    assert_eq!(escape("é"), "é");
    assert_eq!(escape("\u{7}"), "\u{7}");
}

#[test]
fn unescaping_undoes_escaping() {
    for s in ["", "plain", "\n", "\\", "\\n", "a\\\n\t\0\rb", "\\\\"] {
        assert_eq!(unescape(&escape(s)), s);
    }
}

#[test]
fn escaping_undoes_unescaping_of_what_is_fully_escaped() {
    for s in ["", "plain", r"\n", r"\\", r"a\t\0b"] {
        assert_eq!(escape(&unescape(s)), s);
    }
    for s in ["\n", r"\x", r"a\"] {
        assert_ne!(escape(&unescape(s)), s);
    }
}

#[test]
fn escaping_is_chosen_by_the_input() {
    let item = |s: &str| Item::<String, ()>::new_from_element(s.to_string());
    assert_eq!(string_escape(item(r"\n"), Item::new_from_element(true)).element, "\n");
    assert_eq!(string_escape(item("\n"), Item::new_from_element(false)).element, r"\n");
}
