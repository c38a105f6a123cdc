//! Calls into rusqlite that the library makes on connections of its own:
//! opening an in-memory database, running a statement, reading a column of
//! text, and the version of the bundled SQLite. Every item here is
//! trusted: its contract is believed, not proved.
use vstd::prelude::*;

verus! {

#[verifier::external_type_specification]
#[verifier::external_body]
pub struct ExConnection(rusqlite::Connection);

/// Opens a new in-memory database with rusqlite's
/// `Connection::open_in_memory`.
///
/// Trusted: nothing is claimed; `None` when SQLite could not open it.
#[verifier::external_body]
pub(crate) fn open_in_memory() -> (r: Option<rusqlite::Connection>) {
    rusqlite::Connection::open_in_memory().ok()
}

/// Runs `sql` with one text parameter bound to its first placeholder, or
/// with none, with rusqlite's `Connection::execute`.
///
/// Trusted: nothing is claimed; `false` when SQLite reported an error.
#[verifier::external_body]
pub(crate) fn execute_with(conn: &rusqlite::Connection, sql: &str, param: Option<&str>) -> (r: bool) {
    match param {
        Some(p) => conn.execute(sql, [p]).is_ok(),
        None => conn.execute(sql, ()).is_ok(),
    }
}

/// Runs the query `sql` with rusqlite's `Connection::prepare` and
/// `Statement::query_map`, reading the first column of each row as text.
///
/// Trusted: nothing is claimed of the rows, which depend on SQLite and on
/// the database; `None` when SQLite reported an error or a value is not
/// text.
#[verifier::external_body]
pub(crate) fn query_texts(conn: &rusqlite::Connection, sql: &str) -> (r: Option<Vec<String>>) {
    let mut stmt = conn.prepare(sql).ok()?;
    let rows = stmt.query_map((), |row| row.get::<_, String>(0)).ok()?;
    rows.collect::<rusqlite::Result<Vec<String>>>().ok()
}

/// The version of the SQLite library that rusqlite was built with
/// (`rusqlite::version`).
///
/// Trusted: nothing is claimed of the text.
#[verifier::external_body]
pub(crate) fn sqlite_version() -> (r: &'static str) {
    rusqlite::version()
}

} // verus!
