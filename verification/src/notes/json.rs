//! JSON values in the custom data of a note, as the settings logic reads them.

use vstd::prelude::*;

verus! {

/// A JSON value: its JSON text, and its content when it is a JSON string.
#[derive(Clone, Debug, PartialEq)]
pub struct JsonValue {
    pub text: String,
    pub as_str: Option<String>,
}

/// A JSON value, as a value.
pub struct JsonView {
    pub text: Seq<char>,
    pub as_str: Option<Seq<char>>,
}

pub open spec fn json_view(v: JsonValue) -> JsonView {
    JsonView {
        text: v.text@,
        as_str: match v.as_str {
            Some(s) => Some(s@),
            None => None,
        },
    }
}

/// The entries of a JSON object, each key with its value.
pub open spec fn entries_view(v: Seq<(String, JsonValue)>) -> Seq<(Seq<char>, JsonView)> {
    v.map_values(|e: (String, JsonValue)| (e.0@, json_view(e.1)))
}

/// What `serde_json` reads from the text `s` as a JSON object: its entries in the order of
/// the text (a repeated key keeps its first place and its last value), or the message of
/// the error.
pub uninterp spec fn json_object_entries(s: Seq<char>) -> Result<Seq<(Seq<char>, JsonView)>, Seq<char>>;

/// The lowercase hex digit of `d`, for `0 <= d < 16`.
pub open spec fn hex_digit(d: int) -> char {
    if d < 10 {
        (48 + d) as char
    } else {
        (87 + d) as char
    }
}

/// A char of a JSON string as `serde_json` writes it: a quote and a backslash escaped with
/// a backslash; backspace, tab, line feed, form feed and carriage return as `\b`, `\t`,
/// `\n`, `\f`, `\r`; any other char below U+0020 as `\u00` and two lowercase hex digits;
/// every other char as it is.
pub open spec fn json_char_escaped(c: char) -> Seq<char> {
    if c == '"' {
        seq!['\\', '"']
    } else if c == '\\' {
        seq!['\\', '\\']
    } else if c == '\u{8}' {
        seq!['\\', 'b']
    } else if c == '\t' {
        seq!['\\', 't']
    } else if c == '\n' {
        seq!['\\', 'n']
    } else if c == '\u{c}' {
        seq!['\\', 'f']
    } else if c == '\r' {
        seq!['\\', 'r']
    } else if (c as u32) < 0x20 {
        seq!['\\', 'u', '0', '0', hex_digit((c as int) / 16), hex_digit((c as int) % 16)]
    } else {
        seq![c]
    }
}

/// The chars of `s`, each escaped as in a JSON string.
pub open spec fn json_escaped(s: Seq<char>) -> Seq<char>
    decreases s.len(),
{
    if s.len() == 0 {
        Seq::empty()
    } else {
        json_escaped(s.drop_last()) + json_char_escaped(s.last())
    }
}

/// The JSON text `serde_json` writes for the JSON string with content `s`: the escaped
/// content in double quotes.
pub open spec fn json_string_text(s: Seq<char>) -> Seq<char> {
    seq!['"'] + json_escaped(s) + seq!['"']
}

/// Reads `s` as a JSON object with `serde_json::from_str` into a `serde_json::Map` (which
/// keeps the order of the text), each value with its JSON text (`Value`'s `Display`) and,
/// for a string, its content (`Value::as_str`); the error's `Display` otherwise. The
/// contract names the result: nothing of JSON's grammar is stated.
#[verifier::external_body]
pub(crate) fn parse_json_object(s: &str) -> (r: Result<Vec<(String, JsonValue)>, String>)
    ensures
        match (r, json_object_entries(s@)) {
            (Ok(v), Ok(e)) => entries_view(v@) == e,
            (Err(m), Err(e)) => m@ == e,
            _ => false,
        },
{
    match serde_json::from_str::<serde_json::Map<String, serde_json::Value>>(s) {
        Ok(m) => Ok(
            m.into_iter().map(
                |(k, v)| (k, JsonValue { text: v.to_string(), as_str: v.as_str().map(|x| x.to_string()) }),
            ).collect(),
        ),
        Err(e) => Err(e.to_string()),
    }
}

/// The JSON string `serde_json::Value::String(s)`: its content is `s`, and its JSON text is
/// what `Value`'s `Display` writes: the content escaped, in double quotes.
#[verifier::external_body]
pub(crate) fn json_string(s: &str) -> (r: JsonValue)
    ensures
        json_view(r).as_str == Some(s@),
        r.text@ == json_string_text(s@),
{
    let v = serde_json::Value::String(s.to_string());
    JsonValue { text: v.to_string(), as_str: Some(s.to_string()) }
}

} // verus!
