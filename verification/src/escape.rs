//! Escape sequences and the control characters they stand for.

use crate::text::chars_of;
use vstd::prelude::*;

verus! {

/// The control character that a backslash and `c` stand for, where they stand for one.
pub open spec fn control_for(c: char) -> Option<char> {
    if c == 'n' {
        Some('\n')
    } else if c == 'r' {
        Some('\r')
    } else if c == 't' {
        Some('\t')
    } else if c == '0' {
        Some('\0')
    } else if c == '\\' {
        Some('\\')
    } else {
        None
    }
}

/// How one character is written as an escape sequence, or as itself where it needs none.
pub open spec fn escaped_char(c: char) -> Seq<char> {
    if c == '\n' {
        seq!['\\', 'n']
    } else if c == '\r' {
        seq!['\\', 'r']
    } else if c == '\t' {
        seq!['\\', 't']
    } else if c == '\0' {
        seq!['\\', '0']
    } else if c == '\\' {
        seq!['\\', '\\']
    } else {
        seq![c]
    }
}

/// `text` with every escape sequence replaced by its control character. A backslash that begins
/// none stays, with the character behind it.
pub open spec fn unescaped(text: Seq<char>) -> Seq<char>
    decreases text.len(),
{
    if text.len() == 0 {
        Seq::empty()
    } else if text[0] != '\\' || text.len() == 1 {
        seq![text[0]] + unescaped(text.skip(1))
    } else {
        match control_for(text[1]) {
            Some(control) => seq![control] + unescaped(text.skip(2)),
            None => seq!['\\', text[1]] + unescaped(text.skip(2)),
        }
    }
}

/// `text` with every control character replaced by its escape sequence.
pub open spec fn escaped(text: Seq<char>) -> Seq<char> {
    text.map_values(|c: char| escaped_char(c)).flatten()
}

/// Converts the escape sequences `\n`, `\r`, `\t`, `\0` and `\\` into the control characters they
/// stand for. Other sequences, such as `\x`, are preserved as they are.
pub fn unescape_string(input: String) -> (r: String)
    ensures
        r@ == unescaped(input@),
{
    let chars = chars_of(input.as_str());
    let n = chars.len();
    let mut result = String::new();
    let mut i: usize = 0;
    assert(chars@.skip(0) == chars@);
    while i < n
        invariant
            n == chars@.len(),
            i <= n,
            result@ + unescaped(chars@.skip(i as int)) == unescaped(chars@),
        decreases n - i,
    {
        let c = chars[i];
        let ghost rest = chars@.skip(i as int);
        let ghost before = result@;
        assert(rest.skip(1) == chars@.skip(i + 1));
        if c == '\\' && i + 1 < n {
            let next = chars[i + 1];
            assert(rest.skip(2) == chars@.skip(i + 2));
            if next == 'n' {
                result.push('\n');
            } else if next == 'r' {
                result.push('\r');
            } else if next == 't' {
                result.push('\t');
            } else if next == '0' {
                result.push('\0');
            } else if next == '\\' {
                result.push('\\');
            } else {
                result.push('\\');
                result.push(next);
            }
            proof {
                let shown = match control_for(next) {
                    Some(control) => seq![control],
                    None => seq!['\\', next],
                };
                assert(result@ == before + shown);
                assert(before + (shown + unescaped(chars@.skip(i + 2))) == result@ + unescaped(
                    chars@.skip(i + 2),
                ));
            }
            i = i + 2;
        } else {
            result.push(c);
            proof {
                assert(result@ == before + seq![c]);
                assert(before + (seq![c] + unescaped(chars@.skip(i + 1))) == result@ + unescaped(
                    chars@.skip(i + 1),
                ));
            }
            i = i + 1;
        }
    }
    assert(chars@.skip(n as int) == Seq::<char>::empty());
    result
}

/// Converts newlines, carriage returns, tabs, null characters and backslashes into their escape
/// sequences.
pub fn escape_string(input: String) -> (r: String)
    ensures
        r@ == escaped(input@),
{
    let chars = chars_of(input.as_str());
    let n = chars.len();
    let mut result = String::new();
    let ghost shown = chars@.map_values(|c: char| escaped_char(c));
    assert(shown.take(0) == Seq::<Seq<char>>::empty());
    for i in 0..n
        invariant
            n == chars@.len(),
            shown == chars@.map_values(|c: char| escaped_char(c)),
            result@ == shown.take(i as int).flatten(),
    {
        let c = chars[i];
        let ghost before = result@;
        if c == '\n' {
            result.push('\\');
            result.push('n');
        } else if c == '\r' {
            result.push('\\');
            result.push('r');
        } else if c == '\t' {
            result.push('\\');
            result.push('t');
        } else if c == '\0' {
            result.push('\\');
            result.push('0');
        } else if c == '\\' {
            result.push('\\');
            result.push('\\');
        } else {
            result.push(c);
        }
        proof {
            assert(result@ == before + escaped_char(c));
            assert(shown.take(i + 1) == shown.take(i as int).push(escaped_char(c)));
            shown.take(i as int).lemma_flatten_push(escaped_char(c));
        }
    }
    assert(shown.take(n as int) == shown);
    result
}

/// The first character of an escaped text is escaped on its own.
pub(crate) proof fn lemma_escaped_front(text: Seq<char>)
    requires
        0 < text.len(),
    ensures
        escaped(text) == escaped_char(text[0]) + escaped(text.skip(1)),
{
    let escape = |c: char| escaped_char(c);
    assert(text.map_values(escape).first() == escaped_char(text[0]));
    assert(text.map_values(escape).drop_first() == text.skip(1).map_values(escape));
}

/// Unescaping what was escaped gives the text back, whatever it holds.
pub proof fn lemma_unescape_of_escape(text: Seq<char>)
    ensures
        unescaped(escaped(text)) == text,
    decreases text.len(),
{
    if text.len() == 0 {
        assert(escaped(text) == Seq::<char>::empty());
    } else {
        let shown = escaped(text);
        let rest = text.skip(1);
        lemma_escaped_front(text);
        lemma_unescape_of_escape(rest);
        assert(shown.skip(escaped_char(text[0]).len() as int) == escaped(rest));
        assert(unescaped(shown) == seq![text[0]] + rest);
        assert(seq![text[0]] + rest == text);
    }
}

/// Whether `text` holds no control character as itself, and every backslash begins an escape
/// sequence.
pub open spec fn fully_escaped(text: Seq<char>) -> bool
    decreases text.len(),
{
    if text.len() == 0 {
        true
    } else if text[0] == '\\' {
        text.len() > 1 && control_for(text[1]) is Some && fully_escaped(text.skip(2))
    } else {
        escaped_char(text[0]) == seq![text[0]] && fully_escaped(text.skip(1))
    }
}

/// Escaping what was unescaped gives the text back exactly where it was fully escaped.
pub proof fn lemma_escape_of_unescape(text: Seq<char>)
    ensures
        escaped(unescaped(text)) =~= text <==> fully_escaped(text),
    decreases text.len(),
{
    if text.len() == 0 {
        assert(escaped(text) == Seq::<char>::empty());
    } else if text[0] != '\\' || text.len() == 1 {
        let rest = text.skip(1);
        let plain = unescaped(text);
        lemma_escape_of_unescape(rest);
        lemma_escaped_front(plain);
        assert(plain.skip(1) == unescaped(rest));
        assert(escaped(plain) == escaped_char(text[0]) + escaped(unescaped(rest)));
        if fully_escaped(text) {
            assert(seq![text[0]] + rest == text);
        }
        if escaped(plain) =~= text {
            assert(escaped(plain)[0] == escaped_char(text[0])[0]);
            if escaped_char(text[0]).len() == 1 {
                assert(escaped(plain).skip(1) == escaped(unescaped(rest)));
            } else {
                assert(escaped(plain).len() >= 2);
            }
        }
    } else {
        let rest = text.skip(2);
        let plain = unescaped(text);
        lemma_escape_of_unescape(rest);
        lemma_escaped_front(plain);
        match control_for(text[1]) {
            Some(control) => {
                assert(plain.skip(1) == unescaped(rest));
                assert(escaped_char(control) == seq!['\\', text[1]]);
                assert(seq!['\\', text[1]] + rest == text);
                if escaped(plain) =~= text {
                    assert(escaped(plain).skip(2) == escaped(unescaped(rest)));
                }
            },
            None => {
                assert(plain[0] == '\\');
                assert(escaped(plain)[1] == escaped_char('\\')[1]);
            },
        }
    }
}

} // verus!
