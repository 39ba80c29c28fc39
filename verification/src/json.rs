//! JSON through `serde_json`: reading one string member of a JSON object, and writing
//! a one-member JSON object.

use vstd::prelude::*;

verus! {

/// What parsing `text` as JSON and reading its string member `key` gives: `None` when
/// `text` is not JSON; `Some(None)` when it is JSON but has no string member `key`;
/// `Some(Some(v))` when member `key` is the string `v`.
pub uninterp spec fn json_str_member(text: Seq<char>, key: Seq<char>) -> Option<Option<Seq<char>>>;

/// A lower-case hexadecimal digit.
pub open spec fn hex_digit(n: nat) -> char {
    seq!['0', '1', '2', '3', '4', '5', '6', '7', '8', '9', 'a', 'b', 'c', 'd', 'e', 'f'][n as int]
}

/// How serde_json writes a character inside a JSON string: `"` and `\` behind a
/// backslash; backspace, tab, line feed, form feed and carriage return as `\b`, `\t`,
/// `\n`, `\f`, `\r`; any other control character below U+0020 as `\u00XX`; every
/// other character as itself.
pub open spec fn json_escape_char(c: char) -> Seq<char> {
    let u = c as u32;
    if c == '"' {
        seq!['\\', '"']
    } else if c == '\\' {
        seq!['\\', '\\']
    } else if u == 8 {
        seq!['\\', 'b']
    } else if u == 9 {
        seq!['\\', 't']
    } else if u == 10 {
        seq!['\\', 'n']
    } else if u == 12 {
        seq!['\\', 'f']
    } else if u == 13 {
        seq!['\\', 'r']
    } else if u < 0x20 {
        seq!['\\', 'u', '0', '0', hex_digit((u / 16) as nat), hex_digit((u % 16) as nat)]
    } else {
        seq![c]
    }
}

/// The escaped contents of a JSON string holding `s`.
pub open spec fn json_escaped(s: Seq<char>) -> Seq<char>
    decreases s.len(),
{
    if s.len() == 0 {
        Seq::empty()
    } else {
        json_escaped(s.drop_last()) + json_escape_char(s.last())
    }
}

/// The JSON string literal of `s`.
pub open spec fn json_string(s: Seq<char>) -> Seq<char> {
    seq!['"'] + json_escaped(s) + seq!['"']
}

/// The compact JSON text of the object whose single member `key` is the string `value`:
/// `{"key":"value"}`, both strings escaped.
pub open spec fn json_single_member(key: Seq<char>, value: Seq<char>) -> Seq<char> {
    seq!['{'] + json_string(key) + seq![':'] + json_string(value) + seq!['}']
}

/// `serde_json::from_str::<Value>(text)`, then `get(key)` and `as_str` on the value.
/// The contract names the result (`json_str_member`); it states nothing of what JSON
/// text parses to which value.
#[verifier::external_body]
pub(crate) fn str_member(text: &str, key: &str) -> (r: Option<Option<String>>)
    ensures
        match r {
            None => json_str_member(text@, key@) is None,
            Some(None) => json_str_member(text@, key@) == Some(None::<Seq<char>>),
            Some(Some(v)) => json_str_member(text@, key@) == Some(Some(v@)),
        },
{
    match serde_json::from_str::<serde_json::Value>(text) {
        Ok(v) => Some(v.get(key).and_then(serde_json::Value::as_str).map(String::from)),
        Err(_) => None,
    }
}

/// `serde_json::to_string` of the map `{key: value}`: the compact text of a one-member
/// object, written with serde_json's string escaping (`json_single_member`), from which
/// serde_json's parser reads member `key` back as `value`.
#[verifier::external_body]
pub(crate) fn single_member_object(key: &str, value: &str) -> (r: String)
    ensures
        r@ == json_single_member(key@, value@),
        json_str_member(r@, key@) == Some(Some(value@)),
{
    serde_json::to_string(&std::collections::BTreeMap::from([(key, value)])).unwrap_or_default()
}

} // verus!
