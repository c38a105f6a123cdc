//! JSON text: a string as a JSON string literal, and a list of strings as a
//! compact JSON array.
use vstd::prelude::*;

use crate::text::{append_chars, str_chars, string_from_chars, string_views};

verus! {

/// The lower-case hexadecimal digit for `v` (`0 <= v < 16`).
pub open spec fn hex_digit(v: int) -> char {
    if v < 10 {
        ((v + 48) as u32) as char
    } else {
        ((v + 87) as u32) as char
    }
}

/// How serde_json writes one character inside a string literal: `"` and
/// `\` behind a backslash; backspace, tab, line feed, form feed and
/// carriage return as `\b`, `\t`, `\n`, `\f`, `\r`; any other character
/// below U+0020 as `\u00` and two lower-case hexadecimal digits; every
/// other character as it is.
pub open spec fn json_escaped(c: char) -> Seq<char> {
    if c == '"' {
        seq!['\\', '"']
    } else if c == '\\' {
        seq!['\\', '\\']
    } else if c == '\u{8}' {
        seq!['\\', 'b']
    } else if c == '\t' {
        seq!['\\', 't']
    } else if c == '\n' {
        seq!['\\', 'n']
    } else if c == '\u{c}' {
        seq!['\\', 'f']
    } else if c == '\r' {
        seq!['\\', 'r']
    } else if (c as u32) < 0x20 {
        seq!['\\', 'u', '0', '0', hex_digit((c as u32 as int) / 16), hex_digit((c as u32 as int) % 16)]
    } else {
        seq![c]
    }
}

/// The characters of `s`, each as serde_json writes it in a string literal.
pub open spec fn json_escaped_text(s: Seq<char>) -> Seq<char>
    decreases s.len(),
{
    if s.len() == 0 {
        seq![]
    } else {
        json_escaped_text(s.drop_last()) + json_escaped(s.last())
    }
}

/// How serde_json writes a string: `"`, each character as
/// [`json_escaped`] writes it, `"`.
pub open spec fn json_string(s: Seq<char>) -> Seq<char> {
    seq!['"'] + json_escaped_text(s) + seq!['"']
}

/// Serializes `s` with `serde_json::to_string`.
///
/// Trusted: the contract claims that the text is [`json_string`] of `s`:
/// serde_json's `format_escaped_str` writes the quotes and, between them,
/// the string with each byte that its `ESCAPE` table marks replaced by its
/// escape (`"`, `\`, `\b`, `\t`, `\n`, `\f`, `\r`, or `\u00XX` with
/// lower-case digits for the other bytes below 0x20). Serializing a string
/// into memory cannot fail.
#[verifier::external_body]
pub(crate) fn json_string_of(s: &str) -> (r: String)
    ensures
        r@ == json_string(s@),
{
    serde_json::to_string(s).unwrap_or_default()
}

/// `parts` joined with `sep` between them.
pub open spec fn joined(parts: Seq<Seq<char>>, sep: char) -> Seq<char>
    decreases parts.len(),
{
    if parts.len() == 0 {
        seq![]
    } else if parts.len() == 1 {
        parts[0]
    } else {
        joined(parts.drop_last(), sep) + seq![sep] + parts.last()
    }
}

/// A compact JSON array of strings, as serde_json writes a list of strings:
/// `[`, the JSON string literals joined by `,`, `]`.
pub open spec fn json_string_array_spec(items: Seq<Seq<char>>) -> Seq<char> {
    seq!['['] + joined(items.map_values(|s: Seq<char>| json_string(s)), ',') + seq![']']
}

/// Writes `items` as a compact JSON array of strings.
pub fn json_string_array(items: &Vec<String>) -> (r: String)
    ensures
        r@ == json_string_array_spec(string_views(items@)),
{
    let ghost views = string_views(items@);
    let ghost lits = views.map_values(|s: Seq<char>| json_string(s));
    let mut body: Vec<char> = Vec::new();
    let mut i: usize = 0;
    proof {
        assert(lits.subrange(0, 0) =~= Seq::<Seq<char>>::empty());
    }
    while i < items.len()
        invariant
            i <= items@.len(),
            views == string_views(items@),
            lits == views.map_values(|s: Seq<char>| json_string(s)),
            lits.len() == items@.len(),
            body@ == joined(lits.subrange(0, i as int), ','),
        decreases items.len() - i,
    {
        let lit = json_string_of(items[i].as_str());
        let chars = str_chars(lit.as_str());
        proof {
            let prev = lits.subrange(0, i as int);
            assert(lits.subrange(0, i as int + 1).drop_last() =~= prev);
            assert(lits[i as int] == json_string(items@[i as int]@));
        }
        if i > 0 {
            body.push(',');
        }
        append_chars(&mut body, &chars);
        proof {
            let next = lits.subrange(0, i as int + 1);
            if i == 0 {
                assert(next.len() == 1);
                assert(body@ =~= next[0]);
            } else {
                assert(body@ =~= joined(next.drop_last(), ',') + seq![','] + next.last());
            }
        }
        i = i + 1;
    }
    proof {
        assert(lits.subrange(0, items@.len() as int) =~= lits);
    }
    let mut out: Vec<char> = Vec::new();
    out.push('[');
    append_chars(&mut out, &body);
    out.push(']');
    proof {
        assert(out@ =~= json_string_array_spec(views));
    }
    string_from_chars(&out)
}

} // verus!
