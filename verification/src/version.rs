//! The version report: a health check of the bundled SQLite, then the
//! version of the editor, the version of SQLite and its compile-time
//! options.
use vstd::prelude::*;

use crate::sqlite::{execute_with, open_in_memory, query_texts, sqlite_version};
use crate::text::{append_chars, chars_eq, str_chars, string_from_chars, string_views};

verus! {

/// The version of this editor backend.
pub const EDITOR_VERSION: &'static str = "0.1.0";

/// `parts`, each after `"- "`, one per line.
pub open spec fn option_lines(parts: Seq<Seq<char>>) -> Seq<char>
    decreases parts.len(),
{
    if parts.len() == 0 {
        seq![]
    } else if parts.len() == 1 {
        seq!['-', ' '] + parts[0]
    } else {
        option_lines(parts.drop_last()) + seq!['\n', '-', ' '] + parts.last()
    }
}

/// The report: `sqlite3-editor <version>`, `SQLite <version>`, an empty
/// line, `Compile options:` and the options as a list, each on a line.
pub open spec fn version_report(editor: Seq<char>, sqlite: Seq<char>, options: Seq<Seq<char>>) -> Seq<char> {
    "sqlite3-editor "@ + editor + seq!['\n'] + "SQLite "@ + sqlite + seq!['\n'] + "\nCompile options:\n"@
        + option_lines(options) + seq!['\n']
}

/// Builds the report (see [`version_report`]).
pub fn version_text(editor: &str, sqlite: &str, options: &Vec<String>) -> (r: String)
    ensures
        r@ == version_report(editor@, sqlite@, string_views(options@)),
{
    let ghost parts = string_views(options@);
    let mut out: Vec<char> = Vec::new();
    append_chars(&mut out, &str_chars("sqlite3-editor "));
    append_chars(&mut out, &str_chars(editor));
    out.push('\n');
    append_chars(&mut out, &str_chars("SQLite "));
    append_chars(&mut out, &str_chars(sqlite));
    out.push('\n');
    append_chars(&mut out, &str_chars("\nCompile options:\n"));
    let ghost head = out@;
    let mut body: Vec<char> = Vec::new();
    let mut i: usize = 0;
    while i < options.len()
        invariant
            i <= options@.len(),
            parts == string_views(options@),
            body@ == option_lines(parts.subrange(0, i as int)),
        decreases options@.len() - i,
    {
        if i > 0 {
            body.push('\n');
        }
        body.push('-');
        body.push(' ');
        append_chars(&mut body, &str_chars(options[i].as_str()));
        proof {
            let p = parts.subrange(0, i + 1);
            assert(p.drop_last() =~= parts.subrange(0, i as int));
            assert(p.last() == options@[i as int]@);
            assert(body@ =~= option_lines(p));
        }
        i = i + 1;
    }
    append_chars(&mut out, &body);
    out.push('\n');
    proof {
        assert(parts.subrange(0, parts.len() as int) =~= parts);
        assert(out@ =~= version_report(editor@, sqlite@, parts));
    }
    string_from_chars(&out)
}

/// The rows read back in the health check start with the text `ok` that
/// was written.
pub open spec fn reads_back_ok_spec(rows: Option<Seq<Seq<char>>>) -> bool {
    rows matches Some(v) && v.len() > 0 && v[0] == "ok"@
}

/// Whether the rows read back in the health check start with the text
/// `ok` that was written; `false` when reading failed.
pub fn reads_back_ok(rows: &Option<Vec<String>>) -> (r: bool)
    ensures
        r == reads_back_ok_spec(
            match rows {
                Some(v) => Some(string_views(v@)),
                None => None,
            },
        ),
{
    match rows {
        Some(v) => v.len() > 0 && chars_eq(&str_chars(v[0].as_str()), &str_chars("ok")),
        None => false,
    }
}

/// The statements of the health check: create a table, write a row with
/// one parameter, read it back.
pub fn health_check_statements() -> (r: (&'static str, &'static str, &'static str))
    ensures
        r.0@ == "CREATE TABLE t(v)"@,
        r.1@ == "INSERT INTO t VALUES (?)"@,
        r.2@ == "SELECT v FROM t"@,
{
    ("CREATE TABLE t(v)", "INSERT INTO t VALUES (?)", "SELECT v FROM t")
}

/// The text written in the health check's row.
pub fn health_check_value() -> (r: &'static str)
    ensures
        r@ == "ok"@,
{
    "ok"
}

/// The query that lists the compile-time options of SQLite.
pub fn compile_options_query() -> (r: &'static str)
    ensures
        r@ == "PRAGMA compile_options"@,
{
    "PRAGMA compile_options"
}

/// The rows read back, as texts, when reading them succeeded.
pub open spec fn rows_view(rows: Option<Vec<String>>) -> Option<Seq<Seq<char>>> {
    match rows {
        Some(v) => Some(string_views(v@)),
        None => None,
    }
}

/// Checks that SQLite works: the statements of [`health_check_statements`]
/// run on a new in-memory database, with [`health_check_value`] bound in
/// the insert. Returns whether the check passed, with the rows that the
/// select read back (`None` when a step failed before or while reading
/// them); the check passed exactly when those rows pass [`reads_back_ok`].
fn health_check() -> (r: (bool, Option<Vec<String>>))
    ensures
        r.0 == reads_back_ok_spec(rows_view(r.1)),
{
    let con = match open_in_memory() {
        Some(c) => c,
        None => {
            return (false, None);
        },
    };
    let (create, insert, select) = health_check_statements();
    if !execute_with(&con, create, None) {
        return (false, None);
    }
    if !execute_with(&con, insert, Some(health_check_value())) {
        return (false, None);
    }
    let rows = query_texts(&con, select);
    let ok = reads_back_ok(&rows);
    (ok, rows)
}

/// Writes the report (see [`version_report`]) for this editor, SQLite
/// version `sqlite` and its compile-time `options`.
pub fn write_version(sqlite: &str, options: &Vec<String>, writer: &mut Vec<u8>)
    ensures
        final(writer)@ == old(writer)@ + vstd::utf8::encode_utf8(
            version_report(EDITOR_VERSION@, sqlite@, string_views(options@)),
        ),
{
    let text = version_text(EDITOR_VERSION, sqlite, options);
    let mut bytes = text.as_str().as_bytes_vec();
    writer.append(&mut bytes);
}

/// Runs the health check, then writes the report (see [`write_version`])
/// with the version of the bundled SQLite and its compile-time options (the
/// rows of [`compile_options_query`]). `false`, with nothing written, when
/// the health check fails or SQLite reports an error.
pub fn run(writer: &mut Vec<u8>) -> (r: bool)
    ensures
        r ==> exists|sqlite: Seq<char>, options: Seq<Seq<char>>|
            final(writer)@ == old(writer)@ + vstd::utf8::encode_utf8(
                #[trigger] version_report(EDITOR_VERSION@, sqlite, options),
            ),
        !r ==> final(writer)@ == old(writer)@,
{
    let (healthy, _rows) = health_check();
    if !healthy {
        return false;
    }
    let conn = match open_in_memory() {
        Some(c) => c,
        None => {
            return false;
        },
    };
    let options = match query_texts(&conn, compile_options_query()) {
        Some(o) => o,
        None => {
            return false;
        },
    };
    write_version(sqlite_version(), &options, writer);
    true
}

} // verus!
