//! JSON string quoting, as `serde_json` writes strings.

use vstd::prelude::*;

verus! {

/// How `serde_json` writes one character inside a string: `"` and `\` are
/// escaped with a backslash, the controls below U+0020 as `\b`, `\t`, `\n`,
/// `\f`, `\r` or `\u00XX` with lowercase hexadecimal digits, and every other
/// character as itself.
pub open spec fn json_escape_char(c: char) -> Seq<char> {
    let u = c as u32;
    if c == '"' {
        seq!['\\', '"']
    } else if c == '\\' {
        seq!['\\', '\\']
    } else if u == 0x08 {
        seq!['\\', 'b']
    } else if u == 0x09 {
        seq!['\\', 't']
    } else if u == 0x0A {
        seq!['\\', 'n']
    } else if u == 0x0C {
        seq!['\\', 'f']
    } else if u == 0x0D {
        seq!['\\', 'r']
    } else if u < 0x20 {
        seq!['\\', 'u', '0', '0', crate::text::hex_char((u / 16) as nat), crate::text::hex_char((u % 16) as nat)]
    } else {
        seq![c]
    }
}

/// The escaped contents of a JSON string.
pub open spec fn json_escape(s: Seq<char>) -> Seq<char>
    decreases s.len(),
{
    if s.len() == 0 {
        seq![]
    } else {
        json_escape(s.drop_last()) + json_escape_char(s.last())
    }
}

/// A JSON string literal holding `s`.
pub open spec fn json_string(s: Seq<char>) -> Seq<char> {
    seq!['"'] + json_escape(s) + seq!['"']
}

/// `serde_json::to_string` of a string: its JSON literal. Serializing a
/// string into memory cannot fail.
#[verifier::external_body]
pub(crate) fn json_quote(s: &str) -> (r: String)
    ensures
        r@ == json_string(s@),
{
    match serde_json::to_string(s) {
        Ok(text) => text,
        Err(_) => String::new(),
    }
}

} // verus!
