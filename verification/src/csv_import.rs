//! Importing a table from delimited text (CSV or TSV): the csv crate reads
//! the header row and the records, and the library turns them into the
//! statements that create the table and the rows that fill it.
use vstd::prelude::*;

use crate::commands::{create_table_text, import_statements, insert_text, no_headers_message};
use crate::text::{append_chars, str_chars, string_from_chars, string_views};

verus! {

/// What the csv crate reads from `bytes` split at `delimiter`, with a
/// header row: the fields of the header row, or the text of the error that
/// reading it gave; then the records read before the first one that fails,
/// and the text of that failure, if any.
pub uninterp spec fn csv_read(bytes: Seq<u8>, delimiter: u8) -> Result<
    (Seq<Seq<char>>, Seq<Seq<Seq<char>>>, Option<Seq<char>>),
    Seq<char>,
>;

/// The texts of rows of fields.
pub open spec fn rows_view(rows: Seq<Vec<String>>) -> Seq<Seq<Seq<char>>> {
    rows.map_values(|r: Vec<String>| string_views(r@))
}

pub open spec fn opt_text(o: Option<String>) -> Option<Seq<char>> {
    match o {
        Some(s) => Some(s@),
        None => None,
    }
}

/// What was read, as texts.
pub open spec fn read_view(r: Result<(Vec<String>, Vec<Vec<String>>, Option<String>), String>) -> Result<
    (Seq<Seq<char>>, Seq<Seq<Seq<char>>>, Option<Seq<char>>),
    Seq<char>,
> {
    match r {
        Ok((h, rows, e)) => Ok((string_views(h@), rows_view(rows@), opt_text(e))),
        Err(e) => Err(e@),
    }
}

/// Reads delimited text with the csv crate: a `ReaderBuilder` with
/// `delimiter` (headers on, the other settings as they default) over
/// `bytes`, then `headers` and `records` until the first error.
///
/// Trusted: the contract claims only that the result is what the csv crate
/// reads from these bytes with this delimiter ([`csv_read`]), the errors
/// given by their `Display` text.
#[verifier::external_body]
fn read_csv(bytes: &[u8], delimiter: u8) -> (r: Result<(Vec<String>, Vec<Vec<String>>, Option<String>), String>)
    ensures
        read_view(r) == csv_read(bytes@, delimiter),
{
    let mut reader = csv::ReaderBuilder::new().delimiter(delimiter).from_reader(bytes);
    let header: Vec<String> = match reader.headers() {
        Ok(h) => h.iter().map(|v| v.to_owned()).collect(),
        Err(err) => return Err(err.to_string()),
    };
    let mut rows: Vec<Vec<String>> = Vec::new();
    for record in reader.records() {
        match record {
            Ok(r) => rows.push(r.iter().map(|v| v.to_owned()).collect()),
            Err(err) => return Ok((header, rows, Some(err.to_string()))),
        }
    }
    Ok((header, rows, None))
}

/// What an import writes: the statement that creates the table, the one
/// that inserts a row, the rows to insert one after another, and the error
/// that ends the import after them (when a record could not be read).
#[derive(Debug)]
pub struct CsvImport {
    pub create: String,
    pub insert: String,
    pub rows: Vec<Vec<String>>,
    pub row_error: Option<String>,
}

pub struct CsvImportView {
    pub create: Seq<char>,
    pub insert: Seq<char>,
    pub rows: Seq<Seq<Seq<char>>>,
    pub row_error: Option<Seq<char>>,
}

impl View for CsvImport {
    type V = CsvImportView;

    open spec fn view(&self) -> CsvImportView {
        CsvImportView {
            create: self.create@,
            insert: self.insert@,
            rows: rows_view(self.rows@),
            row_error: opt_text(self.row_error),
        }
    }
}

pub open spec fn import_view(r: Result<CsvImport, String>) -> Result<CsvImportView, Seq<char>> {
    match r {
        Ok(p) => Ok(p@),
        Err(e) => Err(e@),
    }
}

/// `"Failed read CSV headers: "`.
pub open spec fn headers_error_prefix() -> Seq<char> {
    seq![
        'F', 'a', 'i', 'l', 'e', 'd', ' ', 'r', 'e', 'a', 'd', ' ', 'C', 'S', 'V', ' ', 'h', 'e', 'a', 'd', 'e', 'r', 's', ':', ' ',
    ]
}

/// The import of a table named `table` from what was `read`: an error
/// when the header row could not be read, or names no column; otherwise
/// a text column per field of the header row, and the records read, in
/// order, with the error that stopped the reading.
pub open spec fn csv_import_spec(
    table: Seq<char>,
    read: Result<(Seq<Seq<char>>, Seq<Seq<Seq<char>>>, Option<Seq<char>>), Seq<char>>,
) -> Result<CsvImportView, Seq<char>> {
    match read {
        Err(e) => Err(headers_error_prefix() + e),
        Ok((header, rows, row_error)) => if header.len() == 0 {
            Err(no_headers_message())
        } else {
            Ok(
                CsvImportView {
                    create: create_table_text(table, header),
                    insert: insert_text(table, header.len()),
                    rows,
                    row_error,
                },
            )
        },
    }
}

/// The import of a table named `table` from what the csv crate `read`
/// (see [`csv_import_spec`]).
pub fn plan_csv_import(table: &str, read: Result<(Vec<String>, Vec<Vec<String>>, Option<String>), String>) -> (r:
    Result<CsvImport, String>)
    ensures
        import_view(r) == csv_import_spec(table@, read_view(read)),
{
    match read {
        Err(e) => {
            let mut text: Vec<char> = vec![
                'F', 'a', 'i', 'l', 'e', 'd', ' ', 'r', 'e', 'a', 'd', ' ', 'C', 'S', 'V', ' ', 'h', 'e', 'a', 'd', 'e', 'r', 's', ':', ' ',
            ];
            append_chars(&mut text, &str_chars(e.as_str()));
            proof {
                assert(text@ =~= headers_error_prefix() + e@);
            }
            Err(string_from_chars(&text))
        },
        Ok((header, rows, row_error)) => {
            match import_statements(table, &header) {
                Err(m) => Err(m),
                Ok((create, insert)) => {
                    proof {
                        assert(header@.map_values(|c: String| c@) =~= string_views(header@));
                    }
                    Ok(CsvImport { create, insert, rows, row_error })
                },
            }
        },
    }
}

/// Imports a table named `table_name` from the delimited text `input`,
/// split at the first byte of `csv_delimiter`: the csv crate reads the text
/// (see [`csv_read`]) and [`csv_import_spec`] gives what is written.
pub fn import(table_name: &str, csv_delimiter: &str, input: &[u8]) -> (r: Result<CsvImport, String>)
    requires
        csv_delimiter@.len() > 0,
    ensures
        import_view(r) == csv_import_spec(
            table_name@,
            csv_read(input@, vstd::utf8::encode_utf8(csv_delimiter@)[0]),
        ),
{
    let delimiter_bytes = csv_delimiter.as_bytes_vec();
    proof {
        assert(vstd::utf8::encode_utf8(csv_delimiter@) == vstd::utf8::encode_scalar(csv_delimiter@[0] as u32)
            + vstd::utf8::encode_utf8(csv_delimiter@.drop_first()));
        assert(delimiter_bytes@ == vstd::utf8::encode_utf8(csv_delimiter@));
    }
    let delimiter = delimiter_bytes[0];
    plan_csv_import(table_name, read_csv(input, delimiter))
}

} // verus!
