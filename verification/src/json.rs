//! JSON string quoting, delegated to `serde_json`.
use vstd::prelude::*;

verus! {

/// A lowercase hex digit.
pub open spec fn json_hex_digit(d: int) -> char {
    if d < 10 {
        (d + 48) as char
    } else {
        (d + 87) as char
    }
}

/// How one character stands inside a JSON string literal: `"` and `\` are
/// escaped with a backslash, the five control characters that have a short
/// escape use it, the other control characters below U+0020 become `\u00xx`
/// (lowercase hex), and every other character stands for itself.
pub open spec fn json_char_escape(c: char) -> Seq<char> {
    let n = c as int;
    if c == '"' {
        seq!['\\', '"']
    } else if c == '\\' {
        seq!['\\', '\\']
    } else if n == 8 {
        seq!['\\', 'b']
    } else if n == 9 {
        seq!['\\', 't']
    } else if n == 10 {
        seq!['\\', 'n']
    } else if n == 12 {
        seq!['\\', 'f']
    } else if n == 13 {
        seq!['\\', 'r']
    } else if n < 32 {
        seq!['\\', 'u', '0', '0', json_hex_digit(n / 16), json_hex_digit(n % 16)]
    } else {
        seq![c]
    }
}

/// The escaped characters of a string, in order.
pub open spec fn json_escaped(s: Seq<char>) -> Seq<char>
    decreases s.len(),
{
    if s.len() == 0 {
        seq![]
    } else {
        json_escaped(s.drop_last()) + json_char_escape(s.last())
    }
}

/// A string as a JSON string literal: escaped and put in double quotes.
pub open spec fn json_quoted(s: Seq<char>) -> Seq<char> {
    seq!['"'] + json_escaped(s) + seq!['"']
}

/// Calls `serde_json::to_string` on a `&str`. Serialising a string into
/// memory does not fail: the result is `Ok`, holding the string in double
/// quotes with `"`, `\` and the control characters below U+0020 escaped
/// (`\b \t \n \f \r`, else `\u00xx` in lowercase hex) and every other
/// character unchanged.
#[verifier::external_body]
pub(crate) fn json_quote(s: &str) -> (r: Result<String, String>)
    ensures
        r is Ok,
        r->Ok_0@ == json_quoted(s@),
{
    serde_json::to_string(s).map_err(|e| e.to_string())
}

} // verus!
