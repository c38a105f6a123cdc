//! The errors of the command-line interface: what went wrong, with the
//! query or function and the parameters involved, the exit code each maps
//! to, and the message written for each.
use vstd::prelude::*;

use crate::commands::CLIErrorCode;
use crate::split_statements::{decimal_chars, decimal_text};
use crate::text::{append_chars, str_chars, string_from_chars};

verus! {

#[verifier::external_type_specification]
#[verifier::external_body]
pub struct ExRusqliteError(rusqlite::Error);

/// The extended result code of a failure that SQLite reported, as
/// rusqlite's `Error::SqliteFailure` carries it; `None` for any other
/// error of rusqlite.
///
/// Trusted: carries the field over; nothing is claimed of its value.
#[verifier::external_body]
fn sqlite_failure_code(err: &rusqlite::Error) -> (r: Option<i32>) {
    match err {
        rusqlite::Error::SqliteFailure(e, _) => Some(e.extended_code),
        _ => None,
    }
}

/// The text that rusqlite's `Display` writes for `err`.
///
/// Trusted: nothing is claimed of the text.
#[verifier::external_body]
fn error_text(err: &rusqlite::Error) -> (r: String) {
    format!("{err}")
}

/// The exit code for a failure with the extended result code `code`: by
/// its primary result code (its low byte), the codes that the editor tells
/// apart (`SQLITE_PERM`, `SQLITE_BUSY`, `SQLITE_LOCKED`, `SQLITE_READONLY`,
/// `SQLITE_IOERR`, `SQLITE_CORRUPT`, `SQLITE_FULL`, `SQLITE_NOTADB`), any
/// other an `OtherError`.
pub open spec fn code_of_result(code: i32) -> CLIErrorCode {
    let primary = (code as int) % 256;
    if primary == 3 {
        CLIErrorCode::PermissionDenied
    } else if primary == 5 {
        CLIErrorCode::DatabaseBusy
    } else if primary == 6 {
        CLIErrorCode::DatabaseLocked
    } else if primary == 8 {
        CLIErrorCode::ReadOnly
    } else if primary == 10 {
        CLIErrorCode::SystemIoFailure
    } else if primary == 11 {
        CLIErrorCode::DatabaseCorrupt
    } else if primary == 13 {
        CLIErrorCode::DiskFull
    } else if primary == 26 {
        CLIErrorCode::NotADatabase
    } else {
        CLIErrorCode::OtherError
    }
}

/// The exit code for a failure with the extended result code `code` (see
/// [`code_of_result`]).
pub fn error_code_of_result(code: i32) -> (r: CLIErrorCode)
    ensures
        r == code_of_result(code),
{
    let primary: i32 = if code >= 0 {
        code % 256
    } else {
        let m = code % 256;
        if m == 0 {
            0
        } else {
            m + 256
        }
    };
    if primary == 3 {
        CLIErrorCode::PermissionDenied
    } else if primary == 5 {
        CLIErrorCode::DatabaseBusy
    } else if primary == 6 {
        CLIErrorCode::DatabaseLocked
    } else if primary == 8 {
        CLIErrorCode::ReadOnly
    } else if primary == 10 {
        CLIErrorCode::SystemIoFailure
    } else if primary == 11 {
        CLIErrorCode::DatabaseCorrupt
    } else if primary == 13 {
        CLIErrorCode::DiskFull
    } else if primary == 26 {
        CLIErrorCode::NotADatabase
    } else {
        CLIErrorCode::OtherError
    }
}

/// An error of the command-line interface. The parameters involved are
/// held as the JSON text written for them.
#[derive(Clone, Debug, Eq, PartialEq)]
pub enum CLIError {
    Query { message: String, query: String, params_json: String, code: CLIErrorCode },
    FFI { message: String, function_name: String, params_json: String },
    UnexpectedChanges { expected: u64, actual: u64, query: String, params_json: String },
    InvalidNumberOfParameters { query: String, placeholders: Vec<Option<String>>, params_json: String },
    Other { message: String, query: Option<String>, params_json: Option<String> },
}

impl CLIError {
    /// The error of a query that SQLite failed: rusqlite's message, and the
    /// exit code of its result code when SQLite reported one.
    pub fn new_query_error(err: &rusqlite::Error, query: String, params_json: String) -> (r: Self)
        ensures
            r matches CLIError::Query { query: q, params_json: p, code, .. } && q == query && p == params_json
                && (code == CLIErrorCode::OtherError || exists|c: i32| code == code_of_result(c)),
    {
        let code = match sqlite_failure_code(err) {
            Some(c) => error_code_of_result(c),
            None => CLIErrorCode::OtherError,
        };
        CLIError::Query { message: error_text(err), query, params_json, code }
    }

    /// The error of a call into SQLite that failed.
    pub fn new_ffi_error(err: &rusqlite::Error, function_name: String, params_json: String) -> (r: Self)
        ensures
            r matches CLIError::FFI { function_name: f, params_json: p, .. } && f == function_name && p
                == params_json,
    {
        CLIError::FFI { message: error_text(err), function_name, params_json }
    }

    /// Any other error.
    pub fn new_other_error(message: String, query: Option<String>, params_json: Option<String>) -> (r: Self)
        ensures
            r == (CLIError::Other { message, query, params_json }),
    {
        CLIError::Other { message, query, params_json }
    }

    /// The exit code of the error: that of the query's failure, otherwise
    /// `OtherError`.
    pub fn code(&self) -> (r: CLIErrorCode)
        ensures
            r == match self {
                CLIError::Query { code, .. } => *code,
                _ => CLIErrorCode::OtherError,
            },
    {
        match self {
            CLIError::Query { code, .. } => *code,
            _ => CLIErrorCode::OtherError,
        }
    }
}

/// How a query is named in a message: an editor pragma by its method name,
/// any other query as it is.
pub open spec fn query_line(query: Seq<char>) -> Seq<char> {
    let p = "EDITOR_PRAGMA "@;
    if query.len() >= p.len() && query.subrange(0, p.len() as int) == p {
        "Method: "@ + query.subrange(p.len() as int, query.len() as int)
    } else {
        "Query: "@ + query
    }
}

/// How a query is named in a message (see [`query_line`]).
pub fn format_query(query: &str) -> (r: String)
    ensures
        r@ == query_line(query@),
{
    let q = str_chars(query);
    let p = str_chars("EDITOR_PRAGMA ");
    let mut out: Vec<char> = Vec::new();
    let mut same = q.len() >= p.len();
    let mut i: usize = 0;
    if same {
        while i < p.len()
            invariant
                i <= p@.len(),
                p@.len() <= q@.len(),
                same <==> q@.subrange(0, i as int) =~= p@.subrange(0, i as int),
            decreases p@.len() - i,
        {
            proof {
                assert(q@.subrange(0, i + 1) =~= q@.subrange(0, i as int).push(q@[i as int]));
                assert(p@.subrange(0, i + 1) =~= p@.subrange(0, i as int).push(p@[i as int]));
                assert(q@.subrange(0, i + 1).drop_last() =~= q@.subrange(0, i as int));
                assert(p@.subrange(0, i + 1).drop_last() =~= p@.subrange(0, i as int));
                assert(q@.subrange(0, i + 1).last() == q@[i as int]);
                assert(p@.subrange(0, i + 1).last() == p@[i as int]);
            }
            if q[i] != p[i] {
                same = false;
            }
            i = i + 1;
        }
        proof {
            assert(p@.subrange(0, p@.len() as int) =~= p@);
        }
    }
    if same {
        append_chars(&mut out, &str_chars("Method: "));
        let rest = crate::text::chars_slice(&q, p.len(), q.len());
        append_chars(&mut out, &rest);
    } else {
        append_chars(&mut out, &str_chars("Query: "));
        append_chars(&mut out, &q);
    }
    string_from_chars(&out)
}

/// `parts` joined with `", "`, a missing name written `?`.
pub open spec fn placeholder_list(parts: Seq<Option<Seq<char>>>) -> Seq<char>
    decreases parts.len(),
{
    if parts.len() == 0 {
        seq![]
    } else {
        let last = match parts.last() {
            Some(s) => s,
            None => seq!['?'],
        };
        if parts.len() == 1 {
            last
        } else {
            placeholder_list(parts.drop_last()) + seq![',', ' '] + last
        }
    }
}

pub open spec fn opt_views(v: Seq<Option<String>>) -> Seq<Option<Seq<char>>> {
    v.map_values(
        |p: Option<String>|
            match p {
                Some(s) => Some(s@),
                None => None,
            },
    )
}

/// The message written for an error.
pub open spec fn error_message(e: CLIError) -> Seq<char> {
    match e {
        CLIError::Query { message, query, params_json, .. } => message@ + seq!['\n'] + query_line(query@)
            + "\nParameters: "@ + params_json@,
        CLIError::FFI { message, function_name, params_json } => message@ + "\nFunction: "@ + function_name@
            + "\nParameters: "@ + params_json@,
        CLIError::UnexpectedChanges { expected, actual, query, params_json } => if expected > 0 && actual == 0 {
            "The query did not make any changes. Maybe the data was already updated by a different process.\n"@
                + query_line(query@) + "\nParameters: "@ + params_json@
        } else {
            "Rolled back the transaction because an unexpected number of rows were modified: expected "@
                + decimal_text(expected as nat) + " rows, actually modified "@ + decimal_text(actual as nat)
                + " rows.\n"@ + query_line(query@) + "\nParameters: "@ + params_json@
        },
        CLIError::InvalidNumberOfParameters { query, placeholders, params_json } => "Invalid number of parameters.\n"@
            + query_line(query@) + "\nParameters: "@ + params_json@ + "\nPlaceholders: ["@ + placeholder_list(
            opt_views(placeholders@),
        ) + seq![']'],
        CLIError::Other { message, query, params_json } => message@ + match query {
            Some(q) => query_line(q@),
            None => seq![],
        } + match params_json {
            Some(p) => p@,
            None => seq![],
        },
    }
}

fn push_str(out: &mut Vec<char>, s: &str)
    ensures
        final(out)@ == old(out)@ + s@,
{
    append_chars(out, &str_chars(s));
}

impl CLIError {
    /// The message written for the error (see [`error_message`]).
    pub fn message(&self) -> (r: String)
        ensures
            r@ == error_message(*self),
    {
        let mut out: Vec<char> = Vec::new();
        match self {
            CLIError::Query { message, query, params_json, .. } => {
                push_str(&mut out, message.as_str());
                out.push('\n');
                push_str(&mut out, format_query(query.as_str()).as_str());
                push_str(&mut out, "\nParameters: ");
                push_str(&mut out, params_json.as_str());
            },
            CLIError::FFI { message, function_name, params_json } => {
                push_str(&mut out, message.as_str());
                push_str(&mut out, "\nFunction: ");
                push_str(&mut out, function_name.as_str());
                push_str(&mut out, "\nParameters: ");
                push_str(&mut out, params_json.as_str());
            },
            CLIError::UnexpectedChanges { expected, actual, query, params_json } => {
                if *expected > 0 && *actual == 0 {
                    push_str(
                        &mut out,
                        "The query did not make any changes. Maybe the data was already updated by a different process.\n",
                    );
                } else {
                    push_str(
                        &mut out,
                        "Rolled back the transaction because an unexpected number of rows were modified: expected ",
                    );
                    append_chars(&mut out, &decimal_chars(*expected));
                    push_str(&mut out, " rows, actually modified ");
                    append_chars(&mut out, &decimal_chars(*actual));
                    push_str(&mut out, " rows.\n");
                }
                push_str(&mut out, format_query(query.as_str()).as_str());
                push_str(&mut out, "\nParameters: ");
                push_str(&mut out, params_json.as_str());
            },
            CLIError::InvalidNumberOfParameters { query, placeholders, params_json } => {
                push_str(&mut out, "Invalid number of parameters.\n");
                push_str(&mut out, format_query(query.as_str()).as_str());
                push_str(&mut out, "\nParameters: ");
                push_str(&mut out, params_json.as_str());
                push_str(&mut out, "\nPlaceholders: [");
                let ghost parts = opt_views(placeholders@);
                let mut body: Vec<char> = Vec::new();
                let mut i: usize = 0;
                while i < placeholders.len()
                    invariant
                        i <= placeholders@.len(),
                        parts == opt_views(placeholders@),
                        body@ == placeholder_list(parts.subrange(0, i as int)),
                    decreases placeholders@.len() - i,
                {
                    if i > 0 {
                        body.push(',');
                        body.push(' ');
                    }
                    match &placeholders[i] {
                        Some(s) => push_str(&mut body, s.as_str()),
                        None => body.push('?'),
                    }
                    proof {
                        let p = parts.subrange(0, i + 1);
                        assert(p.drop_last() =~= parts.subrange(0, i as int));
                        assert(p.last() == parts[i as int]);
                        assert(body@ =~= placeholder_list(p));
                    }
                    i = i + 1;
                }
                proof {
                    assert(parts.subrange(0, parts.len() as int) =~= parts);
                }
                append_chars(&mut out, &body);
                out.push(']');
            },
            CLIError::Other { message, query, params_json } => {
                push_str(&mut out, message.as_str());
                if let Some(q) = query {
                    push_str(&mut out, format_query(q.as_str()).as_str());
                }
                if let Some(p) = params_json {
                    push_str(&mut out, p.as_str());
                }
            },
        }
        proof {
            assert(out@ =~= error_message(*self));
        }
        string_from_chars(&out)
    }
}

} // verus!
