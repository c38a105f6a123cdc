//! Syntax diagnostics: each statement of a script is prepared by SQLite,
//! behind `EXPLAIN`, and its syntax errors are reported at character
//! offsets in the script.
use vstd::prelude::*;

use crate::bridge::regex_is_match;
use crate::commands::{is_unicode_whitespace, trim_chars, trimmed};
use crate::location::{ZeroIndexedLocation, line_start_offset};
use crate::dot_command::DotCommandView;
use crate::split_statements::{
    SingleStatement, SingleStatementView, dot_command_views, split_result, split_sqlite_statements, statement_views,
};
use crate::text::{append_chars, str_chars, string_from_chars};
use crate::tokenize::regex_accepts;

verus! {

/// A place where the error may come from.
#[derive(Clone, Copy, Debug, Eq, PartialEq, Structural)]
pub struct PossibleCause {
    pub offset: usize,
}

/// How serious a diagnostic is.
#[derive(Clone, Copy, Debug, Eq, PartialEq, Structural)]
pub enum Severity {
    Warning,
    Error,
}

/// A problem found in a script.
#[derive(Clone, Debug, Eq, PartialEq)]
pub struct Diagnostic {
    pub possible_causes: Vec<PossibleCause>,
    pub message: String,
    pub severity: Severity,
}

/// The parameters of the diagnosis command.
#[derive(Clone, Debug, Eq, PartialEq)]
pub struct DiagnosisCommandParams {
    pub query: String,
}

impl Diagnostic {
    /// An error at character offset `offset`.
    pub fn error(offset: usize, message: String) -> (r: Self)
        ensures
            r.possible_causes@ == seq![PossibleCause { offset }],
            r.message == message,
            r.severity == Severity::Error,
    {
        let mut causes: Vec<PossibleCause> = Vec::new();
        causes.push(PossibleCause { offset });
        proof {
            assert(causes@ =~= seq![PossibleCause { offset }]);
        }
        Diagnostic { possible_causes: causes, message, severity: Severity::Error }
    }
}

// ---------------------------------------------------------------------------
// Byte offsets and character offsets
// ---------------------------------------------------------------------------

/// The number of bytes of `c` in UTF-8.
pub open spec fn utf8_len(c: char) -> nat {
    if (c as u32) < 0x80 {
        1
    } else if (c as u32) < 0x800 {
        2
    } else if (c as u32) < 0x10000 {
        3
    } else {
        4
    }
}

/// The byte offset of character `i` of `s` in UTF-8.
pub open spec fn byte_offset(s: Seq<char>, i: int) -> nat
    decreases i,
{
    if i <= 0 || s.len() == 0 {
        0
    } else if i > s.len() {
        byte_offset(s, s.len() as int)
    } else {
        byte_offset(s, i - 1) + utf8_len(s[i - 1])
    }
}

/// The index of the first character from `i` on that starts at or after
/// byte `b`, or `s.len()`.
pub open spec fn code_point_from(s: Seq<char>, b: nat, i: int) -> int
    decreases s.len() - i,
{
    if i < 0 || i >= s.len() {
        s.len() as int
    } else if b <= byte_offset(s, i) {
        i
    } else {
        code_point_from(s, b, i + 1)
    }
}

/// The index of the character at byte `b` of `s`; a byte inside a
/// character gives the next character, a byte past the end the number of
/// characters.
pub open spec fn loose_code_point_index(s: Seq<char>, b: nat) -> int {
    code_point_from(s, b, 0)
}

proof fn lemma_byte_offset_increasing(s: Seq<char>, k: int, i: int)
    requires
        0 <= k < i <= s.len(),
    ensures
        byte_offset(s, k) < byte_offset(s, i),
    decreases i - k,
{
    if k < i - 1 {
        lemma_byte_offset_increasing(s, k, i - 1);
    }
}

proof fn lemma_code_point_from_offset(s: Seq<char>, k: int, i: int)
    requires
        0 <= k <= i <= s.len(),
    ensures
        code_point_from(s, byte_offset(s, i), k) == i,
    decreases i - k,
{
    if k < i {
        lemma_byte_offset_increasing(s, k, i);
        lemma_code_point_from_offset(s, k + 1, i);
    }
}

proof fn lemma_code_point_from_bound(s: Seq<char>, b: nat, k: int)
    requires
        0 <= k <= s.len(),
    ensures
        k <= code_point_from(s, b, k) <= s.len(),
    decreases s.len() - k,
{
    if k < s.len() && b > byte_offset(s, k) {
        lemma_code_point_from_bound(s, b, k + 1);
    }
}

/// The byte offset where a character starts converts back to that
/// character's index, and any byte offset converts to an index from 0 to
/// the number of characters.
pub proof fn law_code_point_index_round_trip(s: Seq<char>, i: int, b: nat)
    requires
        0 <= i <= s.len(),
    ensures
        loose_code_point_index(s, byte_offset(s, i)) == i,
        0 <= loose_code_point_index(s, b) <= s.len(),
{
    lemma_code_point_from_offset(s, 0, i);
    lemma_code_point_from_bound(s, b, 0);
}

/// Converts a byte index into a character index within `s` (see
/// [`loose_code_point_index`]).
pub fn loose_byte_to_code_point_index(s: &str, byte_index: usize) -> (r: usize)
    ensures
        r == loose_code_point_index(s@, byte_index as nat),
{
    let c = str_chars(s);
    let mut i: usize = 0;
    let mut off: u128 = 0;
    while i < c.len()
        invariant
            i <= c@.len(),
            c@ == s@,
            off == byte_offset(s@, i as int),
            off <= 4 * i,
            code_point_from(s@, byte_index as nat, i as int) == loose_code_point_index(s@, byte_index as nat),
        decreases c@.len() - i,
    {
        if byte_index as u128 <= off {
            return i;
        }
        let ch = c[i];
        let u = ch as u32;
        let w: u128 = if u < 0x80 {
            1
        } else if u < 0x800 {
            2
        } else if u < 0x10000 {
            3
        } else {
            4
        };
        off = off + w;
        i = i + 1;
    }
    c.len()
}

// ---------------------------------------------------------------------------
// Preparing a statement
// ---------------------------------------------------------------------------

/// What SQLite said when asked to prepare a statement.
#[derive(Clone, Debug, Eq, PartialEq)]
pub enum PrepareOutcome {
    Prepared,
    /// An error at a token of the input: the input, the byte offset of the
    /// token (negative when unknown) and the message.
    SqlInputError { sql: String, offset: i32, msg: String },
    /// Another SQLite error, with its message if it has one.
    SqliteFailure { msg: Option<String> },
    OtherError,
}

/// The outcome came from preparing `text`: an error at a token of the
/// input carries that input and a known offset.
pub open spec fn outcome_of_text(o: PrepareOutcome, text: Seq<char>) -> bool {
    o matches PrepareOutcome::SqlInputError { sql, offset, .. } ==> sql@ == text && offset >= 0
}

/// Prepares `sql` with rusqlite's `Connection::prepare`.
///
/// Trusted: whether SQLite prepares the text depends on SQLite and on the
/// database, and is not claimed; rusqlite builds its error at a token
/// (`Error::SqlInputError`) from the text it was given and SQLite's
/// non-negative error offset, as `outcome_of_text` says; the errors are
/// carried over with their fields.
#[verifier::external_body]
fn prepare_statement(conn: &mut rusqlite::Connection, sql: &str) -> (r: PrepareOutcome)
    ensures
        outcome_of_text(r, sql@),
{
    match conn.prepare(sql) {
        Ok(_) => PrepareOutcome::Prepared,
        Err(rusqlite::Error::SqlInputError { sql, offset, msg, .. }) => PrepareOutcome::SqlInputError { sql, offset, msg },
        Err(rusqlite::Error::SqliteFailure(_, msg)) => PrepareOutcome::SqliteFailure { msg },
        Err(_) => PrepareOutcome::OtherError,
    }
}

/// Messages of syntax errors at a token.
pub const SQL_INPUT_ERROR_SYNTAX_ERROR: &'static str = r#"(?i)(?s)^(?:near .*: syntax error|unrecognized token:|incomplete input)"#;

/// Messages of other syntax errors.
pub const SQLITE_FAILURE_SYNTAX_ERROR: &'static str = r#"(?i)(?s)^(?:unknown table option)"#;

/// Statements that are not safe to prepare behind `EXPLAIN`.
pub const PRAGMA_PATTERN: &'static str = r"(?i)(?s).*\bPRAGMA[^_a-zA-Z0-9]";

pub const QUERY_PATTERN: &'static str = r"(?i)(?s).*\bQUERY[^_a-zA-Z0-9]";

pub const EXPLAIN_PATTERN: &'static str = r"(?i)(?s).*\bEXPLAIN[^_a-zA-Z0-9]";

/// `"EXPLAIN "`.
pub open spec fn explain_prefix() -> Seq<char> {
    seq!['E', 'X', 'P', 'L', 'A', 'I', 'N', ' ']
}

/// The text that is prepared to check the syntax of a statement:
/// `EXPLAIN ` and the statement.
pub fn explain_sql(stmt: &str) -> (r: String)
    ensures
        r@ == explain_prefix() + stmt@,
{
    let mut text: Vec<char> = vec!['E', 'X', 'P', 'L', 'A', 'I', 'N', ' '];
    append_chars(&mut text, &str_chars(stmt));
    proof {
        assert(text@ =~= explain_prefix() + stmt@);
    }
    string_from_chars(&text)
}

/// The outcome can be turned into a diagnostic without overflow: the
/// offsets fit in a `usize` and the byte offset is known.
pub open spec fn outcome_in_range(o: PrepareOutcome, stmt: Seq<char>, offset_start: usize) -> bool {
    match o {
        PrepareOutcome::SqlInputError { sql, offset, msg } => regex_accepts(SQL_INPUT_ERROR_SYNTAX_ERROR, msg@)
            ==> (offset >= 0 && offset_start + loose_code_point_index(sql@, offset as nat) <= usize::MAX),
        PrepareOutcome::SqliteFailure { msg } => (msg matches Some(m) && regex_accepts(
            SQLITE_FAILURE_SYNTAX_ERROR,
            m@,
        )) ==> offset_start + stmt.len() <= usize::MAX,
        _ => true,
    }
}

/// The diagnostic for what SQLite said of `EXPLAIN <stmt>`, where `stmt`
/// starts at character `offset_start`: a syntax error at its token (the
/// prefix taken off), or an unknown table option at the end of the
/// statement; nothing otherwise.
pub open spec fn diagnostic_of(o: PrepareOutcome, stmt: Seq<char>, offset_start: usize) -> Option<(int, Seq<char>)> {
    match o {
        PrepareOutcome::SqlInputError { sql, offset, msg } => if regex_accepts(SQL_INPUT_ERROR_SYNTAX_ERROR, msg@) {
            let at = offset_start + loose_code_point_index(sql@, offset as nat);
            Some((if at >= 8 { at - 8 } else { 0 }, msg@))
        } else {
            None
        },
        PrepareOutcome::SqliteFailure { msg } => match msg {
            Some(m) => if regex_accepts(SQLITE_FAILURE_SYNTAX_ERROR, m@) {
                Some((offset_start + stmt.len(), m@))
            } else {
                None
            },
            None => None,
        },
        _ => None,
    }
}

pub open spec fn diagnostic_is(d: Diagnostic, offset: int, message: Seq<char>) -> bool {
    &&& d.possible_causes@.len() == 1
    &&& d.possible_causes@[0].offset == offset
    &&& d.message@ == message
    &&& d.severity == Severity::Error
}

fn accepts(pattern: &str, text: &str) -> (r: bool)
    ensures
        r == regex_accepts(pattern, text@),
{
    match regex_is_match(pattern, text) {
        Some(b) => b,
        None => false,
    }
}

/// The diagnostic for what SQLite said of `EXPLAIN <stmt_str>` (see
/// [`diagnostic_of`]).
pub fn diagnostic_of_outcome(outcome: PrepareOutcome, stmt_str: &str, offset_start: usize) -> (r: Option<Diagnostic>)
    requires
        outcome_in_range(outcome, stmt_str@, offset_start),
    ensures
        match diagnostic_of(outcome, stmt_str@, offset_start) {
            None => r is None,
            Some((offset, message)) => r matches Some(d) && diagnostic_is(d, offset, message),
        },
{
    match outcome {
        PrepareOutcome::SqlInputError { sql, offset, msg } => {
            if accepts(SQL_INPUT_ERROR_SYNTAX_ERROR, msg.as_str()) {
                let k = loose_byte_to_code_point_index(sql.as_str(), offset as usize);
                let at = offset_start + k;
                let pos = if at >= 8 { at - 8 } else { 0 };
                Some(Diagnostic::error(pos, msg))
            } else {
                None
            }
        },
        PrepareOutcome::SqliteFailure { msg } => {
            match msg {
                Some(m) => {
                    if accepts(SQLITE_FAILURE_SYNTAX_ERROR, m.as_str()) {
                        let n = str_chars(stmt_str).len();
                        Some(Diagnostic::error(offset_start + n, m))
                    } else {
                        None
                    }
                },
                None => None,
            }
        },
        _ => None,
    }
}

/// The statement is not checked: it is empty, a lone `;`, or mentions
/// `PRAGMA`, `QUERY` or `EXPLAIN`.
pub open spec fn statement_skipped(stmt: Seq<char>) -> bool {
    ||| trimmed(stmt).len() == 0
    ||| trimmed(stmt) == seq![';']
    ||| regex_accepts(PRAGMA_PATTERN, stmt)
    ||| regex_accepts(QUERY_PATTERN, stmt)
    ||| regex_accepts(EXPLAIN_PATTERN, stmt)
}

fn check_outcome_in_range(outcome: &PrepareOutcome, stmt_str: &str, offset_start: usize) -> (r: bool)
    ensures
        r == outcome_in_range(*outcome, stmt_str@, offset_start),
{
    match outcome {
        PrepareOutcome::SqlInputError { sql, offset, msg } => {
            if !accepts(SQL_INPUT_ERROR_SYNTAX_ERROR, msg.as_str()) {
                return true;
            }
            if *offset < 0 {
                return false;
            }
            let k = loose_byte_to_code_point_index(sql.as_str(), *offset as usize);
            k <= usize::MAX - offset_start
        },
        PrepareOutcome::SqliteFailure { msg } => {
            match msg {
                Some(m) => {
                    if !accepts(SQLITE_FAILURE_SYNTAX_ERROR, m.as_str()) {
                        return true;
                    }
                    let n = str_chars(stmt_str).len();
                    n <= usize::MAX - offset_start
                },
                None => true,
            }
        },
        _ => true,
    }
}

/// Checks the syntax of one statement, which starts at character
/// `offset_start` of the script, by preparing `EXPLAIN <stmt_str>` on
/// `conn`.
///
/// Statements that [`statement_skipped`] describes give nothing, and so
/// does an answer of SQLite whose offsets do not fit in a `usize`;
/// otherwise the result is [`diagnostic_of`] what SQLite answered.
pub fn diagnose_single_statement(conn: &mut rusqlite::Connection, stmt_str: &str, offset_start: usize) -> (r: Option<
    Diagnostic,
>)
    ensures
        statement_skipped(stmt_str@) ==> r is None,
        r matches Some(d) ==> d.severity == Severity::Error && d.possible_causes@.len() == 1,
        r matches Some(d) ==> exists|o: PrepareOutcome|
            outcome_of_text(o, explain_prefix() + stmt_str@) && #[trigger] diagnostic_of(o, stmt_str@, offset_start)
                == Some((d.possible_causes@[0].offset as int, d.message@)),
{
    let t = trim_chars(&str_chars(stmt_str));
    if t.len() == 0 || (t.len() == 1 && t[0] == ';') {
        proof {
            if t.len() == 1 {
                assert(trimmed(stmt_str@) =~= seq![';']);
            }
        }
        return None;
    }
    proof {
        assert(trimmed(stmt_str@) != seq![';']) by {
            if trimmed(stmt_str@) == seq![';'] {
                assert(t@.len() == 1 && t@[0] == ';');
            }
        }
    }
    if accepts(PRAGMA_PATTERN, stmt_str) || accepts(QUERY_PATTERN, stmt_str) || accepts(EXPLAIN_PATTERN, stmt_str) {
        return None;
    }
    let sql = explain_sql(stmt_str);
    let outcome = prepare_statement(conn, sql.as_str());
    if !check_outcome_in_range(&outcome, stmt_str, offset_start) {
        return None;
    }
    let ghost o = outcome;
    let r = diagnostic_of_outcome(outcome, stmt_str, offset_start);
    proof {
        if r is Some {
            let d = r->0;
            assert(diagnostic_of(o, stmt_str@, offset_start) == Some(
                (d.possible_causes@[0].offset as int, d.message@),
            ));
        }
    }
    r
}

/// The character offset in `sql` of the location `loc`.
pub open spec fn offset_in(sql: Seq<char>, loc: ZeroIndexedLocation) -> int {
    line_start_offset(sql, loc.line as nat) + loc.column
}

/// The offset of `loc` in `sql` fits in a `usize`.
pub open spec fn offset_fits(sql: Seq<char>, loc: ZeroIndexedLocation) -> bool {
    sql.len() + 1 + loc.column <= usize::MAX
}

/// Diagnostic `d` is what SQLite's answer (some answer) to `EXPLAIN` and
/// statement `s`, which starts at `offset_start`, gives.
pub open spec fn diagnoses(d: Diagnostic, s: SingleStatementView, offset_start: int) -> bool {
    &&& d.severity == Severity::Error
    &&& d.possible_causes@.len() == 1
    &&& !statement_skipped(s.real_text.value)
    &&& 0 <= offset_start <= usize::MAX
    &&& exists|o: PrepareOutcome|
        outcome_of_text(o, explain_prefix() + s.real_text.value) && #[trigger] diagnostic_of(
            o,
            s.real_text.value,
            offset_start as usize,
        ) == Some((d.possible_causes@[0].offset as int, d.message@))
}

/// Diagnostic `i` of `ds` is what SQLite answered for statement `ks[i]` of
/// `ss`, the statements taken in order.
pub open spec fn diagnosed_in_order(
    ds: Seq<Diagnostic>,
    ss: Seq<SingleStatementView>,
    sql: Seq<char>,
    ks: Seq<int>,
) -> bool {
    &&& ks.len() == ds.len()
    &&& forall|a: int, b: int| 0 <= a < b < ks.len() ==> ks[a] < ks[b]
    &&& forall|i: int|
        0 <= i < ds.len() ==> 0 <= #[trigger] ks[i] < ss.len() && diagnoses(
            ds[i],
            ss[ks[i]],
            offset_in(sql, ss[ks[i]].real_text.range.start),
        )
}

/// Checks the syntax of each statement of `sql` on `conn`. A script that
/// does not tokenize gives one error, at the tokenizer's error; otherwise
/// each error is what SQLite answered for one of the statements that are
/// checked, in the order of the statements.
pub fn diagnose(conn: &mut rusqlite::Connection, sql: &str) -> (r: Vec<Diagnostic>)
    ensures
        forall|i: int| 0 <= i < r@.len() ==> (#[trigger] r@[i]).severity == Severity::Error,
        split_result(sql@) matches Err((loc, msg)) ==> (offset_fits(sql@, loc) ==> r@.len() == 1
            && r@[0].possible_causes@ == seq![PossibleCause { offset: offset_in(sql@, loc) as usize }]
            && r@[0].message@ == msg),
        split_result(sql@) matches Ok((ss, _)) ==> r@.len() <= ss.len() && exists|ks: Seq<int>|
            #[trigger] diagnosed_in_order(r@, ss, sql@, ks),
{
    let mut errors: Vec<Diagnostic> = Vec::new();
    let n = str_chars(sql).len();
    match split_sqlite_statements(sql) {
        Ok((statements, dots)) => {
            let ghost ss = statement_views(statements@);
            let ghost mut ks: Seq<int> = seq![];
            let mut i: usize = 0;
            while i < statements.len()
                invariant
                    i <= statements@.len(),
                    n == sql@.len(),
                    ss == statement_views(statements@),
                    split_result(sql@) == Ok::<
                        (Seq<SingleStatementView>, Seq<DotCommandView>),
                        (ZeroIndexedLocation, Seq<char>),
                    >((ss, dot_command_views(dots@))),
                    ks.len() == errors@.len(),
                    errors@.len() <= i,
                    forall|a: int, b: int| 0 <= a < b < ks.len() ==> ks[a] < ks[b],
                    forall|k: int| 0 <= k < errors@.len() ==> (#[trigger] errors@[k]).severity == Severity::Error,
                    forall|k: int|
                        0 <= k < errors@.len() ==> 0 <= #[trigger] ks[k] < i && diagnoses(
                            errors@[k],
                            ss[ks[k]],
                            offset_in(sql@, ss[ks[k]].real_text.range.start),
                        ),
                decreases statements@.len() - i,
            {
                let stmt = &statements[i];
                let start = stmt.real_text.range.start;
                proof {
                    assert(ss[i as int] == stmt@);
                }
                if n < usize::MAX && start.column <= usize::MAX - (n + 1) {
                    let offset_start = start.offset_at(sql);
                    match diagnose_single_statement(conn, stmt.real_text.value.as_str(), offset_start) {
                        Some(d) => {
                            let ghost old_errors = errors@;
                            let ghost old_ks = ks;
                            errors.push(d);
                            proof {
                                ks = ks.push(i as int);
                                assert forall|k: int|
                                    0 <= k < errors@.len() implies 0 <= #[trigger] ks[k] < i + 1 && diagnoses(
                                    errors@[k],
                                    ss[ks[k]],
                                    offset_in(sql@, ss[ks[k]].real_text.range.start),
                                ) by {
                                    if k < old_errors.len() {
                                        assert(errors@[k] == old_errors[k]);
                                        assert(ks[k] == old_ks[k]);
                                    }
                                }
                                assert forall|k: int| 0 <= k < errors@.len() implies (#[trigger] errors@[k]).severity
                                    == Severity::Error by {
                                    if k < old_errors.len() {
                                        assert(errors@[k] == old_errors[k]);
                                    }
                                }
                            }
                        },
                        None => {},
                    }
                }
                i = i + 1;
            }
            proof {
                assert(diagnosed_in_order(errors@, ss, sql@, ks));
                assert(exists|k2: Seq<int>| #[trigger] diagnosed_in_order(errors@, ss, sql@, k2));
                assert(split_result(sql@)->Ok_0.0 == ss);
            }
            errors
        },
        Err(e) => {
            let loc = e.location;
            if n < usize::MAX && loc.column <= usize::MAX - (n + 1) {
                errors.push(Diagnostic::error(loc.offset_at(sql), e.message));
            }
            errors
        },
    }
}

} // verus!
