//! The cells of an exported query result as CSV fields and as JSON values:
//! NULL as the chosen null text (CSV) or `null` (JSON), BLOB values as
//! BASE64 strings, and the CSV delimiter, which must be a single byte.
use vstd::prelude::*;
use vstd::utf8::{decode_utf8, encode_utf8, valid_utf8};

use crate::json::{json_string, json_string_of};
use crate::split_statements::{decimal_chars, decimal_text};
use crate::text::{append_chars, str_chars, string_from_chars};

verus! {

// ---------------------------------------------------------------------------
// BASE64
// ---------------------------------------------------------------------------

/// The character of the standard BASE64 alphabet for `n` (`0 <= n < 64`):
/// `A`-`Z`, `a`-`z`, `0`-`9`, `+`, `/`.
pub open spec fn base64_char(n: int) -> char {
    if n < 26 {
        (0x41 + n) as char
    } else if n < 52 {
        (0x61 + n - 26) as char
    } else if n < 62 {
        (0x30 + n - 52) as char
    } else if n == 62 {
        '+'
    } else {
        '/'
    }
}

/// Standard BASE64 with padding: each group of three bytes becomes four
/// characters of six bits each; a last group of one or two bytes is padded
/// with `=`.
pub open spec fn base64_of(b: Seq<u8>) -> Seq<char>
    decreases b.len(),
{
    if b.len() == 0 {
        seq![]
    } else {
        let x = b[0] as int;
        if b.len() == 1 {
            seq![base64_char(x / 4), base64_char((x % 4) * 16), '=', '=']
        } else {
            let y = b[1] as int;
            if b.len() == 2 {
                seq![base64_char(x / 4), base64_char((x % 4) * 16 + y / 16), base64_char((y % 16) * 4), '=']
            } else {
                let z = b[2] as int;
                seq![
                    base64_char(x / 4),
                    base64_char((x % 4) * 16 + y / 16),
                    base64_char((y % 16) * 4 + z / 64),
                    base64_char(z % 64),
                ] + base64_of(b.subrange(3, b.len() as int))
            }
        }
    }
}

/// Encodes `bytes` with base64's `general_purpose::STANDARD` engine.
///
/// Trusted: the engine uses the standard alphabet and pads with `=`; the
/// crate panics when the length of the text overflows `usize`, which the
/// `requires` leaves out.
#[verifier::external_body]
fn base64_standard(bytes: &[u8]) -> (r: String)
    requires
        bytes@.len() / 3 * 4 + 4 <= usize::MAX,
    ensures
        r@ == base64_of(bytes@),
{
    base64::Engine::encode(&base64::engine::general_purpose::STANDARD, bytes)
}

/// Text from bytes with `String::from_utf8_lossy`.
///
/// Trusted: bytes that are valid UTF-8 are decoded as they are; of other
/// bytes (where each invalid sequence becomes U+FFFD) nothing is claimed.
#[verifier::external_body]
fn utf8_lossy(bytes: &[u8]) -> (r: String)
    ensures
        valid_utf8(bytes@) ==> r@ == decode_utf8(bytes@),
{
    String::from_utf8_lossy(bytes).into_owned()
}

// ---------------------------------------------------------------------------
// Cells
// ---------------------------------------------------------------------------

/// A value of a query result, as the export reads it.
pub enum ExportCell {
    Null,
    Integer(i64),
    /// A floating-point value, as `Display` writes it (`text`) and as
    /// serde_json writes it (`json`).
    Real { text: String, json: String },
    /// The bytes of a TEXT value.
    Text(Vec<u8>),
    Blob(Vec<u8>),
}

/// A blob is small enough that its BASE64 text has a length in `usize`.
pub open spec fn cell_fits(cell: &ExportCell) -> bool {
    cell matches ExportCell::Blob(b) ==> b@.len() / 3 * 4 + 4 <= usize::MAX
}

/// `v` in decimal, with a `-` when it is negative.
pub open spec fn integer_text(v: i64) -> Seq<char> {
    if v < 0 {
        seq!['-'] + decimal_text((0 - v) as nat)
    } else {
        decimal_text(v as nat)
    }
}

fn integer_chars(v: i64) -> (r: Vec<char>)
    ensures
        r@ == integer_text(v),
{
    if v < 0 {
        let magnitude: u64 = if v == i64::MIN {
            9223372036854775808u64
        } else {
            (0 - v) as u64
        };
        let digits = decimal_chars(magnitude);
        let mut r: Vec<char> = Vec::new();
        r.push('-');
        append_chars(&mut r, &digits);
        r
    } else {
        decimal_chars(v as u64)
    }
}

/// The CSV field of a cell: NULL as `null`, numbers in decimal (a real as
/// `Display` writes it), TEXT as its bytes, BLOB as BASE64.
pub open spec fn csv_field_spec(cell: &ExportCell, null: Seq<char>) -> Seq<u8> {
    match cell {
        ExportCell::Null => encode_utf8(null),
        ExportCell::Integer(v) => encode_utf8(integer_text(*v)),
        ExportCell::Real { text, .. } => encode_utf8(text@),
        ExportCell::Text(b) => b@,
        ExportCell::Blob(b) => encode_utf8(base64_of(b@)),
    }
}

/// The CSV field of `cell`, with `null` standing for NULL.
pub fn csv_field(cell: &ExportCell, null: &str) -> (r: Vec<u8>)
    requires
        cell_fits(cell),
    ensures
        r@ == csv_field_spec(cell, null@),
{
    match cell {
        ExportCell::Null => null.as_bytes_vec(),
        ExportCell::Integer(v) => {
            let s = string_from_chars(&integer_chars(*v));
            s.as_str().as_bytes_vec()
        },
        ExportCell::Real { text, .. } => text.as_str().as_bytes_vec(),
        ExportCell::Text(b) => b.clone(),
        ExportCell::Blob(b) => {
            let s = base64_standard(b.as_slice());
            s.as_str().as_bytes_vec()
        },
    }
}

/// The JSON value of a cell: `null`, a number, a string (TEXT decoded from
/// UTF-8), or the BASE64 text of a BLOB as a string. Of TEXT that is not
/// valid UTF-8 only that it is a JSON string is stated (see `json_value`).
pub open spec fn json_value_spec(cell: &ExportCell) -> Seq<char> {
    match cell {
        ExportCell::Null => seq!['n', 'u', 'l', 'l'],
        ExportCell::Integer(v) => integer_text(*v),
        ExportCell::Real { json, .. } => json@,
        ExportCell::Text(b) => json_string(decode_utf8(b@)),
        ExportCell::Blob(b) => json_string(base64_of(b@)),
    }
}

/// The JSON value of `cell`. TEXT that is not valid UTF-8 is decoded with
/// each invalid sequence replaced by U+FFFD.
pub fn json_value(cell: &ExportCell) -> (r: String)
    requires
        cell_fits(cell),
    ensures
        !(cell matches ExportCell::Text(b) && !valid_utf8(b@)) ==> r@ == json_value_spec(cell),
        cell matches ExportCell::Text(_) ==> exists|s: Seq<char>| r@ == json_string(s),
{
    match cell {
        ExportCell::Null => {
            let v: Vec<char> = vec!['n', 'u', 'l', 'l'];
            string_from_chars(&v)
        },
        ExportCell::Integer(v) => string_from_chars(&integer_chars(*v)),
        ExportCell::Real { json, .. } => json.clone(),
        ExportCell::Text(b) => {
            let s = utf8_lossy(b.as_slice());
            json_string_of(s.as_str())
        },
        ExportCell::Blob(b) => {
            let s = base64_standard(b.as_slice());
            json_string_of(s.as_str())
        },
    }
}

/// One row of the JSON export: `{`, then for each column its name as a
/// JSON string, `:` and the JSON value of its cell, joined by `,`, then
/// `}`.
pub open spec fn json_object(keys: Seq<Seq<char>>, values: Seq<Seq<char>>) -> Seq<char> {
    seq!['{'] + json_members(keys, values) + seq!['}']
}

/// The members of a JSON object, joined by `,`.
pub open spec fn json_members(keys: Seq<Seq<char>>, values: Seq<Seq<char>>) -> Seq<char>
    decreases keys.len(),
{
    if keys.len() == 0 {
        seq![]
    } else if keys.len() == 1 {
        json_string(keys[0]) + seq![':'] + values[0]
    } else {
        json_members(keys.drop_last(), values.drop_last()) + seq![','] + json_string(keys.last())
            + seq![':'] + values.last()
    }
}

/// The JSON object of one exported row, from the column names and the JSON
/// values of its cells (see [`json_value`]).
pub fn json_row(columns: &Vec<String>, values: &Vec<String>) -> (r: String)
    requires
        columns@.len() == values@.len(),
    ensures
        r@ == json_object(
            columns@.map_values(|c: String| c@),
            values@.map_values(|v: String| v@),
        ),
{
    let ghost keys = columns@.map_values(|c: String| c@);
    let ghost vals = values@.map_values(|v: String| v@);
    let mut body: Vec<char> = Vec::new();
    let mut i: usize = 0;
    while i < columns.len()
        invariant
            i <= columns@.len(),
            columns@.len() == values@.len(),
            keys == columns@.map_values(|c: String| c@),
            vals == values@.map_values(|v: String| v@),
            body@ == json_members(keys.subrange(0, i as int), vals.subrange(0, i as int)),
        decreases columns.len() - i,
    {
        let key = json_string_of(columns[i].as_str());
        let key_chars = str_chars(key.as_str());
        let value_chars = str_chars(values[i].as_str());
        let ghost before = body@;
        if i > 0 {
            body.push(',');
        }
        append_chars(&mut body, &key_chars);
        body.push(':');
        append_chars(&mut body, &value_chars);
        proof {
            let k = keys.subrange(0, i as int + 1);
            let v = vals.subrange(0, i as int + 1);
            assert(k.drop_last() =~= keys.subrange(0, i as int));
            assert(v.drop_last() =~= vals.subrange(0, i as int));
            assert(k.last() == columns@[i as int]@);
            assert(v.last() == values@[i as int]@);
            if i == 0 {
                assert(body@ =~= json_string(k[0]) + seq![':'] + v[0]);
            } else {
                assert(body@ =~= before + seq![','] + json_string(k.last()) + seq![':'] + v.last());
            }
        }
        i = i + 1;
    }
    proof {
        assert(keys.subrange(0, columns@.len() as int) =~= keys);
        assert(vals.subrange(0, columns@.len() as int) =~= vals);
    }
    let mut out: Vec<char> = Vec::new();
    out.push('{');
    append_chars(&mut out, &body);
    out.push('}');
    proof {
        assert(out@ =~= json_object(keys, vals));
    }
    string_from_chars(&out)
}

// ---------------------------------------------------------------------------
// Delimiter
// ---------------------------------------------------------------------------

pub open spec fn bad_delimiter_message() -> Seq<char> {
    "The delimiter needs to be a single-byte character."@
}

/// The CSV delimiter: the one byte of `delimiter`; an error when its UTF-8
/// encoding is not exactly one byte long.
pub fn csv_delimiter(delimiter: &str) -> (r: Result<u8, String>)
    ensures
        encode_utf8(delimiter@).len() == 1 ==> r == Ok::<u8, String>(encode_utf8(delimiter@)[0]),
        encode_utf8(delimiter@).len() != 1 ==> (r matches Err(m) && m@ == bad_delimiter_message()),
{
    let bytes = delimiter.as_bytes_vec();
    if bytes.len() == 1 {
        Ok(bytes[0])
    } else {
        let m = "The delimiter needs to be a single-byte character.";
        proof {
            reveal_strlit("The delimiter needs to be a single-byte character.");
        }
        Err(string_from_chars(&str_chars(m)))
    }
}

/// What the csv crate's `Writer` (built by `WriterBuilder` with `delimiter`,
/// the other settings as they default) writes for one record of `fields`:
/// the fields, each quoted where it needs to be, then the record's end.
pub uninterp spec fn csv_record_bytes(fields: Seq<Seq<u8>>, delimiter: u8) -> Seq<u8>;

/// The bytes of each field.
pub open spec fn field_bytes(fields: Seq<Vec<u8>>) -> Seq<Seq<u8>> {
    fields.map_values(|f: Vec<u8>| f@)
}

/// Writes one record with the csv crate: a `Writer` over an empty buffer,
/// `write_field` for each field, `write_record` of no more fields to end
/// the record, then the buffer.
///
/// Trusted: the contract claims that the bytes are what the csv crate
/// writes for these fields with this delimiter ([`csv_record_bytes`]). The
/// buffer is in memory, so writing to it does not fail; a record does not
/// depend on the records written before it with the same writer, whose
/// records here all have as many fields as the header.
#[verifier::external_body]
fn write_csv_record(fields: &Vec<Vec<u8>>, delimiter: u8) -> (r: Vec<u8>)
    ensures
        r@ == csv_record_bytes(field_bytes(fields@), delimiter),
{
    let mut w = csv::WriterBuilder::new().delimiter(delimiter).from_writer(Vec::new());
    for field in fields {
        let _ = w.write_field(field);
    }
    let _ = w.write_record(None::<&[u8]>);
    match w.into_inner() {
        Ok(bytes) => bytes,
        Err(_) => Vec::new(),
    }
}

/// The CSV header line: the column names, written by the csv crate.
pub fn csv_header(names: &Vec<String>, delimiter: u8) -> (r: Vec<u8>)
    ensures
        r@ == csv_record_bytes(names@.map_values(|n: String| encode_utf8(n@)), delimiter),
{
    let mut fields: Vec<Vec<u8>> = Vec::new();
    let mut i: usize = 0;
    while i < names.len()
        invariant
            i <= names@.len(),
            fields@.len() == i,
            field_bytes(fields@) == names@.subrange(0, i as int).map_values(|n: String| encode_utf8(n@)),
        decreases names@.len() - i,
    {
        let ghost before = fields@;
        let b = names[i].as_str().as_bytes_vec();
        fields.push(b);
        proof {
            let want = names@.subrange(0, i + 1).map_values(|n: String| encode_utf8(n@));
            assert(b@ == encode_utf8(names@[i as int]@));
            assert forall|k: int| 0 <= k < want.len() implies #[trigger] field_bytes(fields@)[k] == want[k] by {
                if k < i {
                    assert(fields@[k] == before[k]);
                    assert(field_bytes(before)[k] == names@.subrange(0, i as int).map_values(
                        |n: String| encode_utf8(n@),
                    )[k]);
                }
            }
            assert(field_bytes(fields@) =~= want);
        }
        i = i + 1;
    }
    proof {
        assert(names@.subrange(0, names@.len() as int) =~= names@);
    }
    write_csv_record(&fields, delimiter)
}

/// The CSV line of a row: each cell as its field (see [`csv_field_spec`]),
/// with `null` standing for NULL, written by the csv crate.
pub fn csv_row(cells: &Vec<ExportCell>, null: &str, delimiter: u8) -> (r: Vec<u8>)
    requires
        forall|k: int| 0 <= k < cells@.len() ==> cell_fits(&#[trigger] cells@[k]),
    ensures
        r@ == csv_record_bytes(cells@.map_values(|c: ExportCell| csv_field_spec(&c, null@)), delimiter),
{
    let mut fields: Vec<Vec<u8>> = Vec::new();
    let mut i: usize = 0;
    while i < cells.len()
        invariant
            i <= cells@.len(),
            fields@.len() == i,
            forall|k: int| 0 <= k < cells@.len() ==> cell_fits(&#[trigger] cells@[k]),
            field_bytes(fields@) == cells@.subrange(0, i as int).map_values(
                |c: ExportCell| csv_field_spec(&c, null@),
            ),
        decreases cells@.len() - i,
    {
        let ghost before = fields@;
        let f = csv_field(&cells[i], null);
        fields.push(f);
        proof {
            let want = cells@.subrange(0, i + 1).map_values(|c: ExportCell| csv_field_spec(&c, null@));
            assert forall|k: int| 0 <= k < want.len() implies #[trigger] field_bytes(fields@)[k] == want[k] by {
                if k < i {
                    assert(fields@[k] == before[k]);
                    assert(field_bytes(before)[k] == cells@.subrange(0, i as int).map_values(
                        |c: ExportCell| csv_field_spec(&c, null@),
                    )[k]);
                }
            }
            assert(field_bytes(fields@) =~= want);
        }
        i = i + 1;
    }
    proof {
        assert(cells@.subrange(0, cells@.len() as int) =~= cells@);
    }
    write_csv_record(&fields, delimiter)
}

} // verus!

