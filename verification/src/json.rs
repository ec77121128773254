//! Rendering a file's text as a JSON string.

use vstd::prelude::*;

verus! {

/// A lowercase hexadecimal digit for `d < 16`.
pub open spec fn hex_digit(d: nat) -> char {
    if d < 10 {
        (d + 48) as char
    } else {
        (d + 87) as char
    }
}

/// How one character is written inside a JSON string: `"` and `\` behind a
/// backslash, the short escapes for backspace, form feed, newline, carriage
/// return and tab, any other character below U+0020 as `\u00XX` in
/// lowercase hex, and everything else as it is.
pub open spec fn json_escape_char(c: char) -> Seq<char> {
    let u = c as u32;
    if c == '"' {
        seq!['\\', '"']
    } else if c == '\\' {
        seq!['\\', '\\']
    } else if u == 0x08 {
        seq!['\\', 'b']
    } else if u == 0x0c {
        seq!['\\', 'f']
    } else if c == '\n' {
        seq!['\\', 'n']
    } else if c == '\r' {
        seq!['\\', 'r']
    } else if c == '\t' {
        seq!['\\', 't']
    } else if u < 0x20 {
        seq!['\\', 'u', '0', '0', hex_digit((u / 16) as nat), hex_digit((u % 16) as nat)]
    } else {
        seq![c]
    }
}

/// The characters of `text`, each escaped as inside a JSON string.
pub open spec fn json_escaped(text: Seq<char>) -> Seq<char>
    decreases text.len(),
{
    if text.len() == 0 {
        Seq::empty()
    } else {
        json_escaped(text.drop_last()) + json_escape_char(text.last())
    }
}

/// The JSON string literal for a text, as `serde_json::to_string_pretty`
/// writes it: the escaped text between double quotes.
pub open spec fn json_string_pretty(text: Seq<char>) -> Seq<char> {
    seq!['"'] + json_escaped(text) + seq!['"']
}

/// No character below U+0020 is left raw in the escaped text.
proof fn lemma_escaped_no_controls(t: Seq<char>)
    ensures
        forall|i: int| 0 <= i < json_escaped(t).len() ==> (#[trigger] json_escaped(t)[i]) as u32 >= 0x20,
    decreases t.len(),
{
    if t.len() > 0 {
        lemma_escaped_no_controls(t.drop_last());
        let c = t.last();
        let u = c as u32;
        let p = json_escaped(t.drop_last());
        let e = json_escape_char(c);
        if u < 0x20 {
            assert(u / 16 < 2);
            assert(hex_digit((u / 16) as nat) as u32 >= 0x20);
            assert(hex_digit((u % 16) as nat) as u32 >= 0x20);
        }
        assert forall|i: int| 0 <= i < e.len() implies (#[trigger] e[i]) as u32 >= 0x20 by {}
        assert forall|i: int|
            0 <= i < json_escaped(t).len() implies (#[trigger] json_escaped(t)[i]) as u32 >= 0x20 by {
            if i < p.len() {
                assert(json_escaped(t)[i] == p[i]);
            } else {
                assert(json_escaped(t)[i] == e[i - p.len()]);
            }
        }
    }
}

/// A text with no quote, backslash or character below U+0020 is escaped
/// as itself.
proof fn lemma_escaped_plain(t: Seq<char>)
    requires
        forall|i: int|
            0 <= i < t.len() ==> (#[trigger] t[i]) as u32 >= 0x20 && t[i] != '"' && t[i] != '\\',
    ensures
        json_escaped(t) == t,
    decreases t.len(),
{
    if t.len() > 0 {
        let p = t.drop_last();
        assert forall|i: int|
            0 <= i < p.len() implies (#[trigger] p[i]) as u32 >= 0x20 && p[i] != '"' && p[i]
                != '\\' by {
            assert(p[i] == t[i]);
        }
        lemma_escaped_plain(p);
        assert(t[t.len() - 1] == t.last());
        assert(json_escaped(t) =~= t);
    } else {
        assert(json_escaped(t) =~= t);
    }
}

/// The rendering is valid inside JSON: it is quoted and holds no raw
/// control character; and a text that needs no escape is rendered as
/// itself between quotes.
pub proof fn lemma_json_rendering(t: Seq<char>)
    ensures
        json_string_pretty(t).len() >= 2,
        json_string_pretty(t)[0] == '"',
        json_string_pretty(t).last() == '"',
        forall|i: int|
            0 <= i < json_string_pretty(t).len() ==> (#[trigger] json_string_pretty(t)[i]) as u32
                >= 0x20,
        (forall|i: int|
            0 <= i < t.len() ==> (#[trigger] t[i]) as u32 >= 0x20 && t[i] != '"' && t[i] != '\\')
            ==> json_string_pretty(t) == seq!['"'] + t + seq!['"'],
{
    lemma_escaped_no_controls(t);
    let j = json_string_pretty(t);
    let e = json_escaped(t);
    assert forall|i: int| 0 <= i < j.len() implies (#[trigger] j[i]) as u32 >= 0x20 by {
        if i == 0 {
        } else if i <= e.len() {
            assert(j[i] == e[i - 1]);
        } else {
            assert(j[i] == '"');
        }
    }
    if forall|i: int|
        0 <= i < t.len() ==> (#[trigger] t[i]) as u32 >= 0x20 && t[i] != '"' && t[i] != '\\' {
        lemma_escaped_plain(t);
    }
}

/// `serde_json::to_string_pretty` on a string slice. The contract claims
/// that it succeeds (serialising a string only writes into an in-memory
/// byte vector, and the errors its documentation lists come from other
/// `Serialize` impls and from maps) and that the result is the quoted,
/// escaped text of `json_string_pretty`, as serde_json's escape table
/// (`ESCAPE` in its `ser.rs`) writes it.
#[verifier::external_body]
fn to_json_string(text: &str) -> (r: Option<String>)
    ensures
        r is Some,
        r matches Some(s) ==> s@ == json_string_pretty(text@),
{
    match serde_json::to_string_pretty(text) {
        Ok(s) => Some(s),
        Err(_) => None,
    }
}

/// The JSON rendering of a file's contents; `None` when the file could not
/// be read (`contents` is `None`).
pub fn file_json(contents: Option<String>) -> (r: Option<String>)
    ensures
        contents is None ==> r is None,
        contents is Some ==> r is Some && r->0@ == json_string_pretty(contents->0@),
{
    match contents {
        Some(text) => to_json_string(text.as_str()),
        None => None,
    }
}

} // verus!
