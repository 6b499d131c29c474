//! Lists of strings written to and read from JSON text with `serde_json`.
use vstd::prelude::*;
use crate::text::views_of_strings;

verus! {

/// A lower-case hexadecimal digit.
pub open spec fn hex_lower(d: int) -> char {
    if d < 10 {
        (48 + d) as char
    } else {
        (87 + d) as char
    }
}

/// How `serde_json` writes a character inside a string: `"` and `\` and
/// the control characters escaped (`\b`, `\t`, `\n`, `\f`, `\r`, else
/// `\u00` and two hexadecimal digits), every other character as it is.
pub open spec fn json_escape(c: char) -> Seq<char> {
    if c == '"' {
        seq!['\\', '"']
    } else if c == '\\' {
        seq!['\\', '\\']
    } else if c == '\u{8}' {
        seq!['\\', 'b']
    } else if c == '\t' {
        seq!['\\', 't']
    } else if c == '\n' {
        seq!['\\', 'n']
    } else if c == '\u{c}' {
        seq!['\\', 'f']
    } else if c == '\r' {
        seq!['\\', 'r']
    } else if (c as u32) < 0x20 {
        seq!['\\', 'u', '0', '0', hex_lower(((c as u32) / 16) as int), hex_lower(((c as u32) % 16) as int)]
    } else {
        seq![c]
    }
}

/// The characters of a string, each as `serde_json` writes it.
pub open spec fn json_escaped(s: Seq<char>) -> Seq<char>
    decreases s.len(),
{
    if s.len() == 0 {
        Seq::empty()
    } else {
        json_escaped(s.drop_last()) + json_escape(s.last())
    }
}

/// The JSON strings of a list, separated by commas.
pub open spec fn json_items(items: Seq<Seq<char>>) -> Seq<char>
    decreases items.len(),
{
    if items.len() == 0 {
        Seq::empty()
    } else if items.len() == 1 {
        seq!['"'] + json_escaped(items[0]) + seq!['"']
    } else {
        json_items(items.drop_last()) + seq![','] + seq!['"'] + json_escaped(items.last()) + seq!['"']
    }
}

/// The text `serde_json::to_string` gives for a list of strings: `[`, the
/// quoted and escaped strings separated by commas, and `]`, with no space.
pub open spec fn json_of_strings(items: Seq<Seq<char>>) -> Seq<char> {
    seq!['['] + json_items(items) + seq![']']
}

/// The name of what `serde_json::from_str::<Vec<String>>` reads from a
/// text: the list of strings, or nothing when the text is not a JSON
/// array of strings.
pub uninterp spec fn strings_from_json(text: Seq<char>) -> Option<Seq<Seq<char>>>;

/// Calls `serde_json::to_string` on a list of strings, with the empty
/// text in place of an error (which a list of strings never gives).
#[verifier::external_body]
pub(crate) fn encode_strings(items: &Vec<String>) -> (r: String)
    ensures
        r@ == json_of_strings(views_of_strings(items@)),
{
    serde_json::to_string(items).unwrap_or_default()
}

/// Calls `serde_json::from_str::<Vec<String>>`, keeping the list when the
/// text parses. The list is only named, except that the text
/// `serde_json::to_string` writes for a list of strings (which cannot fail
/// for strings) reads back as that list.
#[verifier::external_body]
pub(crate) fn decode_strings(text: &str) -> (r: Option<Vec<String>>)
    ensures
        match r {
            Some(v) => strings_from_json(text@) == Some(views_of_strings(v@)),
            None => strings_from_json(text@) is None,
        },
        r matches Some(v) ==> forall|items: Seq<Seq<char>>| #[trigger] json_of_strings(items) == text@ ==> views_of_strings(
            v@,
        ) == items,
        r is None ==> forall|items: Seq<Seq<char>>| #[trigger] json_of_strings(items) != text@,
{
    serde_json::from_str::<Vec<String>>(text).ok()
}

} // verus!
