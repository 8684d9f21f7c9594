//! Values written as JSON.

use crate::item::Item;
use vstd::prelude::*;

verus! {

/// The error that writing JSON can end in.
#[verifier::external_type_specification]
#[verifier::external_body]
pub struct ExJsonError(serde_json::Error);

/// A value that can be written as JSON.
pub enum Value {
    Text(String),
    Bool(bool),
    U32(u32),
    U64(u64),
    /// A value that is written as JSON already, or that could not be.
    Written(Option<String>),
}

/// What stands for a value that cannot be written.
pub const SERIALIZATION_ERROR: &'static str = "Serialization Error";

/// The digit of a number below 16.
pub open spec fn digit(n: nat) -> char {
    if n < 10 {
        ('0' as nat + n) as char
    } else {
        ('a' as nat + n - 10) as char
    }
}

/// A number in decimal digits.
pub open spec fn decimal(n: nat) -> Seq<char>
    decreases n,
{
    if n < 10 {
        seq![digit(n)]
    } else {
        decimal(n / 10).push(digit(n % 10))
    }
}

/// How one character stands in a string of JSON.
pub open spec fn json_char(c: char) -> Seq<char> {
    if c == '"' {
        seq!['\\', '"']
    } else if c == '\\' {
        seq!['\\', '\\']
    } else if c == '\u{8}' {
        seq!['\\', 'b']
    } else if c == '\t' {
        seq!['\\', 't']
    } else if c == '\n' {
        seq!['\\', 'n']
    } else if c == '\u{c}' {
        seq!['\\', 'f']
    } else if c == '\r' {
        seq!['\\', 'r']
    } else if (c as nat) < 32 {
        seq!['\\', 'u', '0', '0', digit(c as nat / 16), digit(c as nat % 16)]
    } else {
        seq![c]
    }
}

/// A text as a string of JSON.
pub open spec fn json_string(text: Seq<char>) -> Seq<char> {
    seq!['"'] + text.map_values(|c: char| json_char(c)).flatten() + seq!['"']
}

/// `serde_json::to_string` of a string: it stands in quotes, with quotes, backslashes and control
/// characters escaped. Writing a string to memory does not fail.
#[verifier::external_body]
fn text_to_json(text: &str) -> (r: Result<String, serde_json::Error>)
    ensures
        r is Ok && r->Ok_0@ == json_string(text@),
{
    serde_json::to_string(text)
}

/// `serde_json::to_string` of a truth value: `true` or `false`. Writing it to memory does not fail.
#[verifier::external_body]
fn bool_to_json(value: bool) -> (r: Result<String, serde_json::Error>)
    ensures
        r is Ok && r->Ok_0@ == if value {
            "true"@
        } else {
            "false"@
        },
{
    serde_json::to_string(&value)
}

/// `serde_json::to_string` of an unsigned integer: its decimal digits, of which the first is zero
/// for zero alone. Writing it to memory does not fail.
#[verifier::external_body]
fn integer_to_json(value: u64) -> (r: Result<String, serde_json::Error>)
    ensures
        r is Ok && r->Ok_0@ == decimal(value as nat),
{
    serde_json::to_string(&value)
}

/// What is shown of a value: the JSON it was written as, or that it could not be.
pub fn written_or_error(written: Option<String>) -> (r: String)
    ensures
        r@ == match written {
            Some(json) => json@,
            None => SERIALIZATION_ERROR@,
        },
{
    match written {
        Some(json) => json,
        None => SERIALIZATION_ERROR.to_owned(),
    }
}

/// A value as it is shown.
pub open spec fn shown_value(value: Value) -> Seq<char> {
    match value {
        Value::Text(text) => json_string(text@),
        Value::Bool(value) => if value {
            "true"@
        } else {
            "false"@
        },
        Value::U32(value) => decimal(value as nat),
        Value::U64(value) => decimal(value as nat),
        Value::Written(Some(json)) => json@,
        Value::Written(None) => SERIALIZATION_ERROR@,
    }
}

/// Converts a value to a JSON string representation.
pub fn serialize<A>(value: Item<Value, A>) -> (r: Item<String, A>)
    ensures
        r.element@ == shown_value(value.element),
        r.attributes == value.attributes,
{
    let (value, attributes) = value.into_parts();
    let written = match value {
        Value::Text(text) => text_to_json(text.as_str()).ok(),
        Value::Bool(value) => bool_to_json(value).ok(),
        Value::U32(value) => integer_to_json(value as u64).ok(),
        Value::U64(value) => integer_to_json(value).ok(),
        Value::Written(written) => written,
    };
    Item::from_parts(written_or_error(written), attributes)
}

/// A number is written in decimal digits: one for a number below ten, and otherwise those of a tenth of
/// it, followed by the one that is left.
pub proof fn lemma_decimal_digits(tens: nat, ones: nat)
    requires
        ones < 10,
    ensures
        decimal(ones).len() == 1,
        decimal(ones)[0] as nat == 48 + ones,
        tens > 0 ==> decimal(10 * tens + ones) == decimal(tens) + decimal(ones),
{
    if tens > 0 {
        let n = 10 * tens + ones;
        assert(n / 10 == tens && n % 10 == ones) by (nonlinear_arith)
            requires
                n == 10 * tens + ones,
                ones < 10,
        ;
        assert(decimal(tens).push(digit(ones)) == decimal(tens) + decimal(ones));
    }
}

/// A text is written between quotes, character by character: quotes, backslashes and control characters
/// behind a backslash, and every other as it is.
pub proof fn lemma_text_written(text: Seq<char>, c: char)
    ensures
        json_string(Seq::empty()) == seq!['"', '"'],
        ({
            let before = json_string(text).drop_last();
            let now = json_string(text.push(c));
            &&& c == '"' ==> now == before + seq!['\\', '"', '"']
            &&& c == '\\' ==> now == before + seq!['\\', '\\', '"']
            &&& c == '\n' ==> now == before + seq!['\\', 'n', '"']
            &&& c == '\r' ==> now == before + seq!['\\', 'r', '"']
            &&& c == '\t' ==> now == before + seq!['\\', 't', '"']
            &&& c as nat == 8 ==> now == before + seq!['\\', 'b', '"']
            &&& c as nat == 12 ==> now == before + seq!['\\', 'f', '"']
            &&& c as nat >= 32 && c != '"' && c != '\\' ==> now == before + seq![c, '"']
        }),
{
    let write = |c: char| json_char(c);
    let none = Seq::<char>::empty();
    assert(none.map_values(write) == Seq::<Seq<char>>::empty());
    assert(json_string(none) == seq!['"', '"']);
    let parts = text.map_values(write);
    assert(text.push(c).map_values(write) == parts.push(json_char(c)));
    parts.lemma_flatten_push(json_char(c));
    assert(json_string(text).drop_last() == seq!['"'] + parts.flatten());
    assert(json_string(text.push(c)) == json_string(text).drop_last() + (json_char(c) + seq!['"']));
}

/// What is shown of a value: a text and a number as they are written, a truth value by its name, and JSON
/// that is written already as it is. A value that could not be written is shown as an error.
pub proof fn lemma_values_shown(text: String, flag: bool, small: u32, large: u64, json: String)
    ensures
        shown_value(Value::Text(text)) == json_string(text@),
        shown_value(Value::Bool(true)) == "true"@,
        shown_value(Value::Bool(false)) == "false"@,
        shown_value(Value::U32(small)) == decimal(small as nat),
        shown_value(Value::U64(large)) == decimal(large as nat),
        shown_value(Value::Written(Some(json))) == json@,
        shown_value(Value::Written(None)) == "Serialization Error"@,
{
}

} // verus!
