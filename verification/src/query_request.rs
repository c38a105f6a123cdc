//! What a request of the query command asks for: one of the editor's
//! pragmas (with its arguments checked) or a statement to run; and the
//! checks made on a statement once SQLite has prepared and run it.
use vstd::prelude::*;

use crate::bridge::{str_debug, str_debug_text};
use crate::cli_error::CLIError;
use crate::commands::{join_comma, lemma_join_comma_push};
use crate::text::{append_chars, chars_eq, str_chars, string_from_chars, string_views};

verus! {

/// A request of the query command.
#[derive(Clone, Debug, Eq, PartialEq)]
pub enum EditorRequest {
    DatabaseLabel,
    ListTables,
    /// The third parameter is the value referred to.
    ListReferences { table_name: String, column_name: String },
    TableSchema { database: String, table_name: String },
    QuerySchema { query: String },
    TotalCacheSizeBytes,
    LoadExtensions { extensions: Vec<String> },
    AddSleepFn,
    /// Any other query: a statement to run.
    Statement,
}

pub enum EditorRequestView {
    DatabaseLabel,
    ListTables,
    ListReferences { table_name: Seq<char>, column_name: Seq<char> },
    TableSchema { database: Seq<char>, table_name: Seq<char> },
    QuerySchema { query: Seq<char> },
    TotalCacheSizeBytes,
    LoadExtensions { extensions: Seq<Seq<char>> },
    AddSleepFn,
    Statement,
}

impl View for EditorRequest {
    type V = EditorRequestView;

    open spec fn view(&self) -> EditorRequestView {
        match self {
            EditorRequest::DatabaseLabel => EditorRequestView::DatabaseLabel,
            EditorRequest::ListTables => EditorRequestView::ListTables,
            EditorRequest::ListReferences { table_name, column_name } => EditorRequestView::ListReferences {
                table_name: table_name@,
                column_name: column_name@,
            },
            EditorRequest::TableSchema { database, table_name } => EditorRequestView::TableSchema {
                database: database@,
                table_name: table_name@,
            },
            EditorRequest::QuerySchema { query } => EditorRequestView::QuerySchema { query: query@ },
            EditorRequest::TotalCacheSizeBytes => EditorRequestView::TotalCacheSizeBytes,
            EditorRequest::LoadExtensions { extensions } => EditorRequestView::LoadExtensions {
                extensions: string_views(extensions@),
            },
            EditorRequest::AddSleepFn => EditorRequestView::AddSleepFn,
            EditorRequest::Statement => EditorRequestView::Statement,
        }
    }
}

/// The parameters of a request as far as the pragmas read them: the text
/// of a text parameter, `None` for a parameter of any other type.
pub open spec fn param_views(v: Seq<Option<String>>) -> Seq<Option<Seq<char>>> {
    v.map_values(
        |p: Option<String>|
            match p {
                Some(s) => Some(s@),
                None => None,
            },
    )
}

/// The texts among the first `n` parameters, in order.
pub open spec fn texts_of(ps: Seq<Option<Seq<char>>>, n: nat) -> Seq<Seq<char>>
    decreases n,
{
    if n == 0 || n > ps.len() {
        seq![]
    } else {
        match ps[n - 1] {
            Some(s) => texts_of(ps, (n - 1) as nat).push(s),
            None => texts_of(ps, (n - 1) as nat),
        }
    }
}

pub open spec fn invalid_list_references() -> Seq<char> {
    "invalid arguments for list_references"@
}

pub open spec fn invalid_table_schema() -> Seq<char> {
    "invalid arguments table_schema"@
}

pub open spec fn invalid_query_schema() -> Seq<char> {
    "invalid argument for query_schema"@
}

/// What a query asks for, given its parameters: a pragma of the editor
/// when the query is one of their names, with the text parameters it needs
/// (an error naming the pragma when they are missing), otherwise a
/// statement to run.
pub open spec fn editor_request_spec(q: Seq<char>, ps: Seq<Option<Seq<char>>>) -> Result<
    EditorRequestView,
    Seq<char>,
> {
    if q == "EDITOR_PRAGMA database_label"@ {
        Ok(EditorRequestView::DatabaseLabel)
    } else if q == "EDITOR_PRAGMA list_tables"@ {
        Ok(EditorRequestView::ListTables)
    } else if q == "EDITOR_PRAGMA list_references"@ {
        if ps.len() >= 3 && ps[0] is Some && ps[1] is Some {
            Ok(EditorRequestView::ListReferences { table_name: ps[0]->0, column_name: ps[1]->0 })
        } else {
            Err(invalid_list_references())
        }
    } else if q == "EDITOR_PRAGMA table_schema"@ {
        if ps.len() >= 2 && ps[0] is Some && ps[1] is Some {
            Ok(EditorRequestView::TableSchema { database: ps[0]->0, table_name: ps[1]->0 })
        } else {
            Err(invalid_table_schema())
        }
    } else if q == "EDITOR_PRAGMA query_schema"@ {
        if ps.len() >= 1 && ps[0] is Some {
            Ok(EditorRequestView::QuerySchema { query: ps[0]->0 })
        } else {
            Err(invalid_query_schema())
        }
    } else if q == "EDITOR_PRAGMA total_cache_size_bytes"@ {
        Ok(EditorRequestView::TotalCacheSizeBytes)
    } else if q == "EDITOR_PRAGMA load_extensions"@ {
        Ok(EditorRequestView::LoadExtensions { extensions: texts_of(ps, ps.len()) })
    } else if q == "EDITOR_PRAGMA add_sleep_fn"@ {
        Ok(EditorRequestView::AddSleepFn)
    } else {
        Ok(EditorRequestView::Statement)
    }
}

fn is_name(q: &Vec<char>, name: &str) -> (r: bool)
    ensures
        r == (q@ == name@),
{
    chars_eq(q, &str_chars(name))
}

fn text_copy(s: &String) -> (r: String)
    ensures
        r@ == s@,
{
    s.clone()
}

fn error_text(s: &str) -> (r: String)
    ensures
        r@ == s@,
{
    s.to_string()
}

/// The text of parameter `i`, if it is a text parameter.
fn text_param(params: &Vec<Option<String>>, i: usize) -> (r: Option<String>)
    ensures
        i < params@.len() && param_views(params@)[i as int] is Some ==> r is Some && r->0@
            == param_views(params@)[i as int]->0,
        !(i < params@.len() && param_views(params@)[i as int] is Some) ==> r is None,
{
    if i < params.len() {
        match &params[i] {
            Some(s) => Some(text_copy(s)),
            None => None,
        }
    } else {
        None
    }
}

/// Reads what a query asks for (see [`editor_request_spec`]).
pub fn editor_request(query: &str, params: &Vec<Option<String>>) -> (r: Result<EditorRequest, String>)
    ensures
        match r {
            Ok(req) => editor_request_spec(query@, param_views(params@)) == Ok::<
                EditorRequestView,
                Seq<char>,
            >(req@),
            Err(m) => editor_request_spec(query@, param_views(params@)) == Err::<
                EditorRequestView,
                Seq<char>,
            >(m@),
        },
{
    let ghost ps = param_views(params@);
    let q = str_chars(query);
    if is_name(&q, "EDITOR_PRAGMA database_label") {
        Ok(EditorRequest::DatabaseLabel)
    } else if is_name(&q, "EDITOR_PRAGMA list_tables") {
        Ok(EditorRequest::ListTables)
    } else if is_name(&q, "EDITOR_PRAGMA list_references") {
        match (text_param(params, 0), text_param(params, 1)) {
            (Some(table_name), Some(column_name)) if params.len() >= 3 => Ok(
                EditorRequest::ListReferences { table_name, column_name },
            ),
            _ => Err(error_text("invalid arguments for list_references")),
        }
    } else if is_name(&q, "EDITOR_PRAGMA table_schema") {
        match (text_param(params, 0), text_param(params, 1)) {
            (Some(database), Some(table_name)) => Ok(EditorRequest::TableSchema { database, table_name }),
            _ => Err(error_text("invalid arguments table_schema")),
        }
    } else if is_name(&q, "EDITOR_PRAGMA query_schema") {
        match text_param(params, 0) {
            Some(query) => Ok(EditorRequest::QuerySchema { query }),
            None => Err(error_text("invalid argument for query_schema")),
        }
    } else if is_name(&q, "EDITOR_PRAGMA total_cache_size_bytes") {
        Ok(EditorRequest::TotalCacheSizeBytes)
    } else if is_name(&q, "EDITOR_PRAGMA load_extensions") {
        let mut extensions: Vec<String> = Vec::new();
        let mut i: usize = 0;
        while i < params.len()
            invariant
                i <= params@.len(),
                ps == param_views(params@),
                string_views(extensions@) == texts_of(ps, i as nat),
            decreases params@.len() - i,
        {
            if let Some(s) = &params[i] {
                let ghost old_e = string_views(extensions@);
                extensions.push(text_copy(s));
                proof {
                    assert(string_views(extensions@) =~= old_e.push(s@));
                }
            }
            i = i + 1;
        }
        Ok(EditorRequest::LoadExtensions { extensions })
    } else if is_name(&q, "EDITOR_PRAGMA add_sleep_fn") {
        Ok(EditorRequest::AddSleepFn)
    } else {
        Ok(EditorRequest::Statement)
    }
}

/// Whether the number of changed rows is as asked: any number when none was
/// given; otherwise exactly that number, or at most that number when fewer
/// are allowed.
pub open spec fn changes_accepted_spec(changes: Option<u64>, actual: u64, allow_fewer: bool) -> bool {
    match changes {
        None => true,
        Some(c) => if allow_fewer {
            actual <= c
        } else {
            actual == c
        },
    }
}

/// Checks the number of changed rows (see [`changes_accepted_spec`]); the
/// transaction is rolled back when this is `false`.
pub fn changes_accepted(changes: Option<u64>, actual: u64, allow_fewer: bool) -> (r: bool)
    ensures
        r == changes_accepted_spec(changes, actual, allow_fewer),
{
    match changes {
        None => true,
        Some(c) => if allow_fewer {
            actual <= c
        } else {
            actual == c
        },
    }
}

/// Whether the placeholders that the editor listed are those that SQLite
/// found in the prepared statement: as many, with the same names (`None`
/// for a nameless `?`), in order.
pub fn placeholders_match(listed: &Vec<Option<String>>, prepared: &Vec<Option<String>>) -> (r: bool)
    ensures
        r == (param_views(listed@) == param_views(prepared@)),
{
    if listed.len() != prepared.len() {
        proof {
            assert(param_views(listed@).len() != param_views(prepared@).len());
        }
        return false;
    }
    let mut i: usize = 0;
    while i < listed.len()
        invariant
            i <= listed@.len(),
            listed@.len() == prepared@.len(),
            forall|k: int| 0 <= k < i ==> param_views(listed@)[k] == param_views(prepared@)[k],
        decreases listed@.len() - i,
    {
        let same = match (&listed[i], &prepared[i]) {
            (Some(a), Some(b)) => chars_eq(&str_chars(a.as_str()), &str_chars(b.as_str())),
            (None, None) => true,
            _ => false,
        };
        if !same {
            proof {
                assert(param_views(listed@)[i as int] != param_views(prepared@)[i as int]);
            }
            return false;
        }
        i = i + 1;
    }
    proof {
        assert(param_views(listed@) =~= param_views(prepared@));
    }
    true
}

/// An optional placeholder name as `Debug` writes it: `Some("name")` or
/// `None`.
pub open spec fn name_debug(n: Option<Seq<char>>) -> Seq<char> {
    match n {
        Some(s) => "Some("@ + str_debug_text(s) + seq![')'],
        None => "None"@,
    }
}

/// A list of optional placeholder names as `Debug` writes it:
/// `[Some("a"), None]`.
pub open spec fn names_debug(names: Seq<Option<Seq<char>>>) -> Seq<char> {
    seq!['['] + join_comma(names.map_values(|n: Option<Seq<char>>| name_debug(n))) + seq![']']
}

/// The names that SQLite gives to the first `n` placeholders of a prepared
/// statement: `None` past its last placeholder.
pub open spec fn names_padded(prepared: Seq<Option<Seq<char>>>, n: nat) -> Seq<Option<Seq<char>>> {
    Seq::new(n, |i: int| if i < prepared.len() { prepared[i] } else { None })
}

/// The message when the placeholders that the editor listed are not those
/// of the prepared statement.
pub open spec fn placeholder_mismatch_message(listed: Seq<Option<Seq<char>>>, prepared: Seq<Option<Seq<char>>>) -> Seq<
    char,
> {
    "Failed to parse the SQL statement: "@ + names_debug(listed) + " != "@ + names_debug(
        names_padded(prepared, listed.len()),
    )
}

fn names_debug_chars(names: &Vec<Option<String>>) -> (r: Vec<char>)
    ensures
        r@ == names_debug(param_views(names@)),
{
    let ghost views = param_views(names@);
    let ghost parts = views.map_values(|n: Option<Seq<char>>| name_debug(n));
    let mut body: Vec<char> = Vec::new();
    let mut i: usize = 0;
    while i < names.len()
        invariant
            i <= names@.len(),
            views == param_views(names@),
            parts == views.map_values(|n: Option<Seq<char>>| name_debug(n)),
            body@ == join_comma(parts.subrange(0, i as int)),
        decreases names.len() - i,
    {
        if i > 0 {
            body.push(',');
            body.push(' ');
        }
        let piece: Vec<char> = match &names[i] {
            Some(s) => {
                let mut v = str_chars("Some(");
                let d = str_chars(str_debug(s.as_str()).as_str());
                append_chars(&mut v, &d);
                v.push(')');
                proof {
                    assert(views[i as int] == Some(s@));
                    assert(v@ =~= name_debug(Some(s@)));
                }
                v
            },
            None => {
                let v = str_chars("None");
                proof {
                    assert(views[i as int] == None::<Seq<char>>);
                }
                v
            },
        };
        append_chars(&mut body, &piece);
        proof {
            assert(piece@ == name_debug(views[i as int]));
            assert(parts.subrange(0, i + 1) =~= parts.subrange(0, i as int).push(parts[i as int]));
            lemma_join_comma_push(parts.subrange(0, i as int), parts[i as int]);
            assert(body@ =~= join_comma(parts.subrange(0, i + 1)));
        }
        i = i + 1;
    }
    proof {
        assert(parts.subrange(0, parts.len() as int) =~= parts);
    }
    let mut out: Vec<char> = Vec::new();
    out.push('[');
    append_chars(&mut out, &body);
    out.push(']');
    proof {
        assert(out@ =~= names_debug(views));
    }
    out
}

fn copy_names(v: &Vec<Option<String>>) -> (r: Vec<Option<String>>)
    ensures
        param_views(r@) == param_views(v@),
{
    let mut r: Vec<Option<String>> = Vec::new();
    let mut i: usize = 0;
    while i < v.len()
        invariant
            i <= v@.len(),
            param_views(r@) == param_views(v@).subrange(0, i as int),
        decreases v.len() - i,
    {
        let item = match &v[i] {
            Some(s) => Some(string_from_chars(&str_chars(s.as_str()))),
            None => None,
        };
        let ghost before = r@;
        r.push(item);
        proof {
            assert(param_views(seq![item])[0] == param_views(v@)[i as int]);
            assert(r@ =~= before + seq![item]);
            assert(param_views(r@) =~= param_views(before) + param_views(seq![item]));
            assert(param_views(r@) =~= param_views(v@).subrange(0, i + 1));
        }
        i = i + 1;
    }
    proof {
        assert(param_views(v@).subrange(0, v@.len() as int) =~= param_views(v@));
    }
    r
}

/// The checks made on a statement once SQLite has prepared it: as many
/// parameters as placeholders, else `InvalidNumberOfParameters` with the
/// placeholders' names; then, when the editor listed the placeholders it
/// expects, those of the statement, else an error that shows both lists.
pub fn check_prepared_statement(
    query: &str,
    params_json: &str,
    n_params: usize,
    prepared: &Vec<Option<String>>,
    expected: &Option<Vec<Option<String>>>,
) -> (r: Result<(), CLIError>)
    ensures
        n_params != prepared@.len() ==> (r matches Err(CLIError::InvalidNumberOfParameters { query: q, placeholders: p, params_json: pj }) && q@
            == query@ && param_views(p@) == param_views(prepared@) && pj@ == params_json@),
        n_params == prepared@.len() ==> match expected {
            Some(e) => if param_views(e@) == param_views(prepared@) {
                r is Ok
            } else {
                r matches Err(CLIError::Other { message: m, query: Some(q), params_json: Some(pj) }) && m@
                    == placeholder_mismatch_message(param_views(e@), param_views(prepared@)) && q@ == query@ && pj@
                    == params_json@
            },
            None => r is Ok,
        },
{
    if n_params != prepared.len() {
        return Err(
            CLIError::InvalidNumberOfParameters {
                query: string_from_chars(&str_chars(query)),
                placeholders: copy_names(prepared),
                params_json: string_from_chars(&str_chars(params_json)),
            },
        );
    }
    match expected {
        None => Ok(()),
        Some(e) => {
            if placeholders_match(e, prepared) {
                return Ok(());
            }
            let ghost pv = param_views(prepared@);
            let n = e.len();
            let mut padded: Vec<Option<String>> = Vec::new();
            let mut i: usize = 0;
            while i < n
                invariant
                    i <= n,
                    n == e@.len(),
                    pv == param_views(prepared@),
                    param_views(padded@) == names_padded(pv, n as nat).subrange(0, i as int),
                decreases n - i,
            {
                let item = if i < prepared.len() {
                    match &prepared[i] {
                        Some(s) => Some(string_from_chars(&str_chars(s.as_str()))),
                        None => None,
                    }
                } else {
                    None
                };
                let ghost before = padded@;
                padded.push(item);
                proof {
                    assert(param_views(seq![item])[0] == names_padded(pv, n as nat)[i as int]);
                    assert(padded@ =~= before + seq![item]);
                    assert(param_views(padded@) =~= param_views(before) + param_views(seq![item]));
                    assert(param_views(padded@) =~= names_padded(pv, n as nat).subrange(0, i + 1));
                }
                i = i + 1;
            }
            proof {
                assert(names_padded(pv, n as nat).subrange(0, n as int) =~= names_padded(pv, n as nat));
            }
            let mut m = str_chars("Failed to parse the SQL statement: ");
            let left = names_debug_chars(e);
            append_chars(&mut m, &left);
            let sep = str_chars(" != ");
            append_chars(&mut m, &sep);
            let right = names_debug_chars(&padded);
            append_chars(&mut m, &right);
            proof {
                assert(m@ =~= placeholder_mismatch_message(param_views(e@), pv));
            }
            Err(
                CLIError::Other {
                    message: string_from_chars(&m),
                    query: Some(string_from_chars(&str_chars(query))),
                    params_json: Some(string_from_chars(&str_chars(params_json))),
                },
            )
        },
    }
}

} // verus!
