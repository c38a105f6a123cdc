//! The commands of the editor server, its option types and error codes,
//! and the checks and statements that the commands build.
use vstd::prelude::*;

use crate::code_lens::{escape_sql_identifier, escaped_identifier};
use crate::text::{append_chars, chars_eq, str_chars, string_from_chars};
use crate::tokenize::regex_accepts;
use crate::bridge::regex_is_match;

verus! {

/// The exit codes of the command-line interface.
#[derive(Clone, Copy, Debug, Eq, PartialEq, Structural)]
pub enum CLIErrorCode {
    PermissionDenied,
    DatabaseBusy,
    DatabaseLocked,
    ReadOnly,
    SystemIoFailure,
    DatabaseCorrupt,
    DiskFull,
    NotADatabase,
    OtherError,
    Success,
}

/// "read_only" | "read_write" | "script"
#[derive(Clone, Copy, Debug, Eq, PartialEq, Structural)]
pub enum QueryMode {
    ReadOnly,
    ReadWrite,
    Script,
}

/// Whether a statement may write.
#[derive(Clone, Copy, Debug, Eq, PartialEq, Structural)]
pub enum ExecMode {
    ReadOnly,
    ReadWrite,
}

/// The options of a query.
#[derive(Clone, Debug, Eq, PartialEq)]
pub struct QueryOptions {
    /// Rolls back the transaction if the number of rows affected by the
    /// statement does not match this value.
    pub changes: Option<u64>,
    pub allow_fewer_changes: bool,
    /// A statement that is run before the main statement, in the same
    /// transaction and with the same parameters.
    pub pre_stmt: Option<String>,
    /// The placeholders that the statement is expected to have.
    pub check_placeholders: Option<Vec<Option<String>>>,
}

impl Default for QueryOptions {
    fn default() -> (r: Self)
        ensures
            r.changes is None,
            !r.allow_fewer_changes,
            r.pre_stmt is None,
            r.check_placeholders is None,
    {
        QueryOptions { changes: None, allow_fewer_changes: false, pre_stmt: None, check_placeholders: None }
    }
}

/// The options of a CSV export.
#[derive(Clone, Debug, Eq, PartialEq)]
pub struct CSVExportOptions {
    pub delimiter: String,
    pub null: String,
}

impl Default for CSVExportOptions {
    fn default() -> (r: Self)
        ensures
            r.delimiter@ == seq![','],
            r.null@ == Seq::<char>::empty(),
    {
        let d: Vec<char> = vec![','];
        let n: Vec<char> = Vec::new();
        proof {
            assert(d@ =~= seq![',']);
        }
        CSVExportOptions { delimiter: string_from_chars(&d), null: string_from_chars(&n) }
    }
}

/// The options of an XLSX export.
#[derive(Clone, Debug, Eq, PartialEq)]
pub struct XLSXExportOptions {
    pub hidden_columns: Option<Vec<u16>>,
    pub selection: Option<(u32, u16, u32, u16)>,
    pub top_left: Option<(u32, u16)>,
    pub wrap_text: bool,
    pub all_tables: bool,
    pub active_sheet: Option<String>,
}

/// A step of an online backup.
#[derive(Clone, Debug, Eq, PartialEq)]
pub struct Step {
    pub locked_or_busy: Option<String>,
    pub remaining: i64,
    pub pagecount: i64,
}

/// A blob value.
#[derive(Clone, Debug, Eq, PartialEq)]
pub struct Blob(pub Vec<u8>);

// ---------------------------------------------------------------------------
// Whitespace, as `char::is_whitespace` and `str::trim` see it
// ---------------------------------------------------------------------------

/// The characters with the Unicode `White_Space` property.
pub open spec fn is_unicode_whitespace(c: char) -> bool {
    let u = c as u32;
    (0x9 <= u && u <= 0xd) || u == 0x20 || u == 0x85 || u == 0xa0 || u == 0x1680 || (0x2000 <= u && u
        <= 0x200a) || u == 0x2028 || u == 0x2029 || u == 0x202f || u == 0x205f || u == 0x3000
}

pub fn char_is_whitespace(c: char) -> (r: bool)
    ensures
        r == is_unicode_whitespace(c),
{
    let u = c as u32;
    (0x9 <= u && u <= 0xd) || u == 0x20 || u == 0x85 || u == 0xa0 || u == 0x1680 || (0x2000 <= u && u
        <= 0x200a) || u == 0x2028 || u == 0x2029 || u == 0x202f || u == 0x205f || u == 0x3000
}

/// The index of the first character of `s` from `i` on that is not
/// whitespace, or `s.len()`.
pub open spec fn skip_ws_from(s: Seq<char>, i: int) -> int
    decreases s.len() - i,
{
    if i < 0 || i >= s.len() {
        s.len() as int
    } else if is_unicode_whitespace(s[i]) {
        skip_ws_from(s, i + 1)
    } else {
        i
    }
}

/// The index after the last character of `s` below `j` that is not
/// whitespace, or `lo`.
pub open spec fn trim_end_from(s: Seq<char>, lo: int, j: int) -> int
    decreases j - lo,
{
    if j <= lo {
        lo
    } else if is_unicode_whitespace(s[j - 1]) {
        trim_end_from(s, lo, j - 1)
    } else {
        j
    }
}

/// `s` without leading and trailing whitespace.
pub open spec fn trimmed(s: Seq<char>) -> Seq<char> {
    let a = skip_ws_from(s, 0);
    s.subrange(a, trim_end_from(s, a, s.len() as int))
}

pub proof fn lemma_skip_ws(s: Seq<char>, i: int)
    requires
        0 <= i <= s.len(),
    ensures
        i <= skip_ws_from(s, i) <= s.len(),
    decreases s.len() - i,
{
    if i < s.len() && is_unicode_whitespace(s[i]) {
        lemma_skip_ws(s, i + 1);
    }
}

pub proof fn lemma_trim_end(s: Seq<char>, lo: int, j: int)
    requires
        lo <= j,
    ensures
        lo <= trim_end_from(s, lo, j) <= j,
    decreases j - lo,
{
    if j > lo && is_unicode_whitespace(s[j - 1]) {
        lemma_trim_end(s, lo, j - 1);
    }
}

/// The characters of `s` without leading and trailing whitespace.
pub fn trim_chars(s: &[char]) -> (r: Vec<char>)
    ensures
        r@ == trimmed(s@),
{
    let mut a: usize = 0;
    while a < s.len() && char_is_whitespace(s[a])
        invariant
            a <= s@.len(),
            skip_ws_from(s@, a as int) == skip_ws_from(s@, 0),
        decreases s@.len() - a,
    {
        a = a + 1;
    }
    let mut b: usize = s.len();
    while b > a && char_is_whitespace(s[b - 1])
        invariant
            a <= b <= s@.len(),
            a == skip_ws_from(s@, 0),
            trim_end_from(s@, a as int, b as int) == trim_end_from(s@, a as int, s@.len() as int),
        decreases b - a,
    {
        b = b - 1;
    }
    crate::text::chars_slice(s, a, b)
}

// ---------------------------------------------------------------------------
// Server commands
// ---------------------------------------------------------------------------

/// A command read by the server, one per line.
#[derive(Clone, Copy, Debug, Eq, PartialEq, Structural)]
pub enum ServerCommand {
    Interrupt,
    Close,
    TryReconnect,
    DisconnectTemporarily,
    Resume,
    Query,
    SemanticHighlight,
    CodeLens,
    CheckSyntax,
    Completion,
}

/// The name of each command, in snake case.
pub open spec fn command_name(c: ServerCommand) -> Seq<char> {
    match c {
        ServerCommand::Interrupt => seq!['i', 'n', 't', 'e', 'r', 'r', 'u', 'p', 't'],
        ServerCommand::Close => seq!['c', 'l', 'o', 's', 'e'],
        ServerCommand::TryReconnect => seq!['t', 'r', 'y', '_', 'r', 'e', 'c', 'o', 'n', 'n', 'e', 'c', 't'],
        ServerCommand::DisconnectTemporarily => seq![
            'd', 'i', 's', 'c', 'o', 'n', 'n', 'e', 'c', 't', '_', 't', 'e', 'm', 'p', 'o', 'r', 'a', 'r', 'i', 'l', 'y',
        ],
        ServerCommand::Resume => seq!['r', 'e', 's', 'u', 'm', 'e'],
        ServerCommand::Query => seq!['q', 'u', 'e', 'r', 'y'],
        ServerCommand::SemanticHighlight => seq![
            's', 'e', 'm', 'a', 'n', 't', 'i', 'c', '_', 'h', 'i', 'g', 'h', 'l', 'i', 'g', 'h', 't',
        ],
        ServerCommand::CodeLens => seq!['c', 'o', 'd', 'e', '_', 'l', 'e', 'n', 's'],
        ServerCommand::CheckSyntax => seq!['c', 'h', 'e', 'c', 'k', '_', 's', 'y', 'n', 't', 'a', 'x'],
        ServerCommand::Completion => seq!['c', 'o', 'm', 'p', 'l', 'e', 't', 'i', 'o', 'n'],
    }
}

/// The command named by a line, once trimmed.
pub open spec fn command_of_line(line: Seq<char>) -> Option<ServerCommand> {
    let t = trimmed(line);
    if t == command_name(ServerCommand::Interrupt) {
        Some(ServerCommand::Interrupt)
    } else if t == command_name(ServerCommand::Close) {
        Some(ServerCommand::Close)
    } else if t == command_name(ServerCommand::TryReconnect) {
        Some(ServerCommand::TryReconnect)
    } else if t == command_name(ServerCommand::DisconnectTemporarily) {
        Some(ServerCommand::DisconnectTemporarily)
    } else if t == command_name(ServerCommand::Resume) {
        Some(ServerCommand::Resume)
    } else if t == command_name(ServerCommand::Query) {
        Some(ServerCommand::Query)
    } else if t == command_name(ServerCommand::SemanticHighlight) {
        Some(ServerCommand::SemanticHighlight)
    } else if t == command_name(ServerCommand::CodeLens) {
        Some(ServerCommand::CodeLens)
    } else if t == command_name(ServerCommand::CheckSyntax) {
        Some(ServerCommand::CheckSyntax)
    } else if t == command_name(ServerCommand::Completion) {
        Some(ServerCommand::Completion)
    } else {
        None
    }
}

/// All characters of `s` are whitespace.
pub open spec fn all_whitespace(s: Seq<char>) -> bool {
    forall|i: int| 0 <= i < s.len() ==> is_unicode_whitespace(#[trigger] s[i])
}

proof fn lemma_skip_prefix(s: Seq<char>, k: int, i: int)
    requires
        0 <= i <= k < s.len(),
        forall|j: int| i <= j < k ==> is_unicode_whitespace(#[trigger] s[j]),
        !is_unicode_whitespace(s[k]),
    ensures
        skip_ws_from(s, i) == k,
    decreases k - i,
{
    if i < k {
        lemma_skip_prefix(s, k, i + 1);
    }
}

proof fn lemma_trim_suffix(s: Seq<char>, lo: int, k: int, j: int)
    requires
        lo < k <= j <= s.len(),
        forall|x: int| k <= x < j ==> is_unicode_whitespace(#[trigger] s[x]),
        !is_unicode_whitespace(s[k - 1]),
    ensures
        trim_end_from(s, lo, j) == k,
    decreases j - k,
{
    if k < j {
        lemma_trim_suffix(s, lo, k, j - 1);
    }
}

/// A line that holds the name of a command, whatever whitespace stands
/// around it, is read as that command.
pub proof fn law_command_line_round_trip(c: ServerCommand, before: Seq<char>, after: Seq<char>)
    requires
        all_whitespace(before),
        all_whitespace(after),
    ensures
        command_of_line(before + command_name(c) + after) == Some(c),
{
    let n = command_name(c);
    let s = before + n + after;
    let a = before.len() as int;
    let b = a + n.len();
    assert(n.len() > 0);
    assert(!is_unicode_whitespace(n[0]));
    assert(!is_unicode_whitespace(n[n.len() - 1]));
    assert(s[a] == n[0]);
    assert(s[b - 1] == n[n.len() - 1]);
    assert forall|j: int| 0 <= j < a implies is_unicode_whitespace(#[trigger] s[j]) by {
        assert(s[j] == before[j]);
    }
    lemma_skip_prefix(s, a, 0);
    assert forall|x: int| b <= x < s.len() implies is_unicode_whitespace(#[trigger] s[x]) by {
        assert(s[x] == after[x - b]);
    }
    lemma_trim_suffix(s, a, b, s.len() as int);
    assert(trimmed(s) =~= n);
}

fn name_chars(c: ServerCommand) -> (r: Vec<char>)
    ensures
        r@ == command_name(c),
{
    let v: Vec<char> = match c {
        ServerCommand::Interrupt => vec!['i', 'n', 't', 'e', 'r', 'r', 'u', 'p', 't'],
        ServerCommand::Close => vec!['c', 'l', 'o', 's', 'e'],
        ServerCommand::TryReconnect => vec!['t', 'r', 'y', '_', 'r', 'e', 'c', 'o', 'n', 'n', 'e', 'c', 't'],
        ServerCommand::DisconnectTemporarily => vec![
            'd', 'i', 's', 'c', 'o', 'n', 'n', 'e', 'c', 't', '_', 't', 'e', 'm', 'p', 'o', 'r', 'a', 'r', 'i', 'l', 'y',
        ],
        ServerCommand::Resume => vec!['r', 'e', 's', 'u', 'm', 'e'],
        ServerCommand::Query => vec!['q', 'u', 'e', 'r', 'y'],
        ServerCommand::SemanticHighlight => vec![
            's', 'e', 'm', 'a', 'n', 't', 'i', 'c', '_', 'h', 'i', 'g', 'h', 'l', 'i', 'g', 'h', 't',
        ],
        ServerCommand::CodeLens => vec!['c', 'o', 'd', 'e', '_', 'l', 'e', 'n', 's'],
        ServerCommand::CheckSyntax => vec!['c', 'h', 'e', 'c', 'k', '_', 's', 'y', 'n', 't', 'a', 'x'],
        ServerCommand::Completion => vec!['c', 'o', 'm', 'p', 'l', 'e', 't', 'i', 'o', 'n'],
    };
    proof {
        assert(v@ =~= command_name(c));
    }
    v
}

impl ServerCommand {
    /// The command named by a line of input, leading and trailing
    /// whitespace ignored; `None` for any other line.
    pub fn from_line(line: &str) -> (r: Option<ServerCommand>)
        ensures
            r == command_of_line(line@),
    {
        let t = trim_chars(&str_chars(line));
        if chars_eq(&t, &name_chars(ServerCommand::Interrupt)) {
            Some(ServerCommand::Interrupt)
        } else if chars_eq(&t, &name_chars(ServerCommand::Close)) {
            Some(ServerCommand::Close)
        } else if chars_eq(&t, &name_chars(ServerCommand::TryReconnect)) {
            Some(ServerCommand::TryReconnect)
        } else if chars_eq(&t, &name_chars(ServerCommand::DisconnectTemporarily)) {
            Some(ServerCommand::DisconnectTemporarily)
        } else if chars_eq(&t, &name_chars(ServerCommand::Resume)) {
            Some(ServerCommand::Resume)
        } else if chars_eq(&t, &name_chars(ServerCommand::Query)) {
            Some(ServerCommand::Query)
        } else if chars_eq(&t, &name_chars(ServerCommand::SemanticHighlight)) {
            Some(ServerCommand::SemanticHighlight)
        } else if chars_eq(&t, &name_chars(ServerCommand::CodeLens)) {
            Some(ServerCommand::CodeLens)
        } else if chars_eq(&t, &name_chars(ServerCommand::CheckSyntax)) {
            Some(ServerCommand::CheckSyntax)
        } else if chars_eq(&t, &name_chars(ServerCommand::Completion)) {
            Some(ServerCommand::Completion)
        } else {
            None
        }
    }
}

// ---------------------------------------------------------------------------
// The read-only mode
// ---------------------------------------------------------------------------

/// Statements that write, at the start of a query.
pub const NON_READONLY_SQL_PATTERN: &'static str = r"(?i)^\s*(INSERT|DELETE|UPDATE|CREATE|DROP|ALTER\s+TABLE)\b";

/// Why a query cannot run in the read-only mode.
#[derive(Clone, Debug, Eq, PartialEq)]
pub enum ReadOnlyViolation {
    /// The query writes; it is carried along.
    QueryNotAllowed(String),
    /// A statement to run before the query was given; it is carried along.
    PreStmtNotAllowed(String),
}

/// The message for a query that writes.
pub open spec fn query_not_allowed_text() -> Seq<char> {
    "This query is not allowed in the read-only mode."@
}

/// The message for a statement given to run before the query.
pub open spec fn pre_stmt_not_allowed_text() -> Seq<char> {
    "pre_stmt is not allowed in the read-only mode."@
}

impl ReadOnlyViolation {
    /// The message reported for the violation.
    pub fn message(&self) -> (r: &'static str)
        ensures
            self is QueryNotAllowed ==> r@ == query_not_allowed_text(),
            self is PreStmtNotAllowed ==> r@ == pre_stmt_not_allowed_text(),
    {
        match self {
            ReadOnlyViolation::QueryNotAllowed(_) => "This query is not allowed in the read-only mode.",
            ReadOnlyViolation::PreStmtNotAllowed(_) => "pre_stmt is not allowed in the read-only mode.",
        }
    }

    /// The statement that is not allowed, reported with the message: the
    /// query, or the statement to run before it.
    pub fn statement(&self) -> (r: &str)
        ensures
            self matches ReadOnlyViolation::QueryNotAllowed(q) ==> r@ == q@,
            self matches ReadOnlyViolation::PreStmtNotAllowed(p) ==> r@ == p@,
    {
        match self {
            ReadOnlyViolation::QueryNotAllowed(q) => q.as_str(),
            ReadOnlyViolation::PreStmtNotAllowed(p) => p.as_str(),
        }
    }
}

/// Checks that `query` may run in the read-only mode: it must not start
/// with a statement that writes, and no statement may run before it.
pub fn assert_readonly_query(query: &str, pre_stmt: &Option<String>) -> (r: Result<(), ReadOnlyViolation>)
    ensures
        regex_accepts(NON_READONLY_SQL_PATTERN, query@) ==> (r matches Err(
            ReadOnlyViolation::QueryNotAllowed(q),
        ) && q@ == query@),
        !regex_accepts(NON_READONLY_SQL_PATTERN, query@) && pre_stmt is Some ==> (r matches Err(
            ReadOnlyViolation::PreStmtNotAllowed(p),
        ) && p@ == pre_stmt->0@),
        !regex_accepts(NON_READONLY_SQL_PATTERN, query@) && pre_stmt is None ==> r is Ok,
{
    let writes = match regex_is_match(NON_READONLY_SQL_PATTERN, query) {
        Some(b) => b,
        None => false,
    };
    if writes {
        return Err(ReadOnlyViolation::QueryNotAllowed(string_from_chars(&str_chars(query))));
    }
    match pre_stmt {
        Some(p) => Err(ReadOnlyViolation::PreStmtNotAllowed(p.clone())),
        None => Ok(()),
    }
}

// ---------------------------------------------------------------------------
// Importing a table
// ---------------------------------------------------------------------------

/// `parts` joined with `", "`.
pub open spec fn join_comma(parts: Seq<Seq<char>>) -> Seq<char>
    decreases parts.len(),
{
    if parts.len() == 0 {
        seq![]
    } else if parts.len() == 1 {
        parts[0]
    } else {
        join_comma(parts.drop_last()) + seq![',', ' '] + parts.last()
    }
}

pub open spec fn create_table_text(table: Seq<char>, columns: Seq<Seq<char>>) -> Seq<char> {
    seq!['C', 'R', 'E', 'A', 'T', 'E', ' ', 'T', 'A', 'B', 'L', 'E', ' '] + escaped_identifier(table)
        + seq!['('] + join_comma(
        columns.map_values(|c: Seq<char>| escaped_identifier(c) + seq![' ', 'T', 'E', 'X', 'T']),
    ) + seq![')']
}

pub open spec fn insert_text(table: Seq<char>, n: nat) -> Seq<char> {
    seq!['I', 'N', 'S', 'E', 'R', 'T', ' ', 'I', 'N', 'T', 'O', ' '] + escaped_identifier(table) + seq![
        ' ',
        'V',
        'A',
        'L',
        'U',
        'E',
        'S',
        ' ',
        '(',
    ] + join_comma(Seq::new(n, |i: int| seq!['?'])) + seq![')']
}

pub(crate) proof fn lemma_join_comma_push(parts: Seq<Seq<char>>, x: Seq<char>)
    ensures
        join_comma(parts.push(x)) == if parts.len() == 0 {
            x
        } else {
            join_comma(parts) + seq![',', ' '] + x
        },
{
    assert(parts.push(x).drop_last() =~= parts);
}

/// `CREATE TABLE` for a table of text columns named `columns`.
pub fn create_table_statement(table: &str, columns: &Vec<String>) -> (r: String)
    ensures
        r@ == create_table_text(table@, columns@.map_values(|c: String| c@)),
{
    let ghost cv = columns@.map_values(|c: String| c@);
    let ghost parts = cv.map_values(|c: Seq<char>| escaped_identifier(c) + seq![' ', 'T', 'E', 'X', 'T']);
    let mut out: Vec<char> = vec!['C', 'R', 'E', 'A', 'T', 'E', ' ', 'T', 'A', 'B', 'L', 'E', ' '];
    let ghost head = out@;
    let t = str_chars(escape_sql_identifier(table).as_str());
    append_chars(&mut out, &t);
    out.push('(');
    let ghost prefix = out@;
    let mut body: Vec<char> = Vec::new();
    let mut i: usize = 0;
    while i < columns.len()
        invariant
            i <= columns@.len(),
            cv == columns@.map_values(|c: String| c@),
            parts == cv.map_values(|c: Seq<char>| escaped_identifier(c) + seq![' ', 'T', 'E', 'X', 'T']),
            body@ == join_comma(parts.subrange(0, i as int)),
        decreases columns@.len() - i,
    {
        if i > 0 {
            body.push(',');
            body.push(' ');
        }
        let c = str_chars(escape_sql_identifier(columns[i].as_str()).as_str());
        append_chars(&mut body, &c);
        body.push(' ');
        body.push('T');
        body.push('E');
        body.push('X');
        body.push('T');
        proof {
            assert(parts.subrange(0, i + 1) =~= parts.subrange(0, i as int).push(parts[i as int]));
            lemma_join_comma_push(parts.subrange(0, i as int), parts[i as int]);
            assert(cv[i as int] == columns@[i as int]@);
            assert(body@ =~= join_comma(parts.subrange(0, i + 1)));
        }
        i = i + 1;
    }
    append_chars(&mut out, &body);
    out.push(')');
    proof {
        assert(parts.subrange(0, parts.len() as int) =~= parts);
        assert(out@ =~= create_table_text(table@, cv));
    }
    string_from_chars(&out)
}

/// `INSERT INTO table VALUES (?, ?, ...)` with `n` placeholders.
pub fn insert_statement(table: &str, n: usize) -> (r: String)
    ensures
        r@ == insert_text(table@, n as nat),
{
    let ghost parts = Seq::new(n as nat, |i: int| seq!['?']);
    let mut out: Vec<char> = vec!['I', 'N', 'S', 'E', 'R', 'T', ' ', 'I', 'N', 'T', 'O', ' '];
    let t = str_chars(escape_sql_identifier(table).as_str());
    append_chars(&mut out, &t);
    let tail: Vec<char> = vec![' ', 'V', 'A', 'L', 'U', 'E', 'S', ' ', '('];
    append_chars(&mut out, &tail);
    let mut body: Vec<char> = Vec::new();
    let mut i: usize = 0;
    while i < n
        invariant
            i <= n,
            parts == Seq::new(n as nat, |i: int| seq!['?']),
            body@ == join_comma(parts.subrange(0, i as int)),
        decreases n - i,
    {
        if i > 0 {
            body.push(',');
            body.push(' ');
        }
        body.push('?');
        proof {
            assert(parts.subrange(0, i + 1) =~= parts.subrange(0, i as int).push(parts[i as int]));
            lemma_join_comma_push(parts.subrange(0, i as int), parts[i as int]);
            assert(body@ =~= join_comma(parts.subrange(0, i + 1)));
        }
        i = i + 1;
    }
    append_chars(&mut out, &body);
    out.push(')');
    proof {
        assert(parts.subrange(0, n as int) =~= parts);
        assert(out@ =~= insert_text(table@, n as nat));
    }
    string_from_chars(&out)
}

/// The formats a table can be imported from.
#[derive(Clone, Copy, Debug, Eq, PartialEq, Structural)]
pub enum ImportingFileFormat {
    Csv,
    Tsv,
    Json,
}

/// How the input of an import is read.
#[derive(Clone, Copy, Debug, Eq, PartialEq, Structural)]
pub enum ImportReader {
    /// Delimited text, split at this byte.
    Delimited(u8),
    Json,
}

/// The reader for an import: CSV split at the first byte of the delimiter
/// given, TSV at tabs, or JSON; `None` for CSV with an empty delimiter.
pub open spec fn import_reader_spec(format: ImportingFileFormat, csv_delimiter: Seq<char>) -> Option<
    ImportReader,
> {
    match format {
        ImportingFileFormat::Csv => if vstd::utf8::encode_utf8(csv_delimiter).len() > 0 {
            Some(ImportReader::Delimited(vstd::utf8::encode_utf8(csv_delimiter)[0]))
        } else {
            None
        },
        ImportingFileFormat::Tsv => Some(ImportReader::Delimited(9u8)),
        ImportingFileFormat::Json => Some(ImportReader::Json),
    }
}

/// Chooses how to read the input of an import in `format` (see
/// [`import_reader_spec`]).
pub fn import_reader(format: ImportingFileFormat, csv_delimiter: &str) -> (r: Option<ImportReader>)
    ensures
        r == import_reader_spec(format, csv_delimiter@),
{
    match format {
        ImportingFileFormat::Csv => {
            let bytes = csv_delimiter.as_bytes_vec();
            if bytes.len() > 0 {
                Some(ImportReader::Delimited(bytes[0]))
            } else {
                None
            }
        },
        ImportingFileFormat::Tsv => Some(ImportReader::Delimited(9u8)),
        ImportingFileFormat::Json => Some(ImportReader::Json),
    }
}

/// The error of an import whose input names no column.
pub open spec fn no_headers_message() -> Seq<char> {
    seq![
        'N', 'o', ' ', 'c', 'o', 'l', 'u', 'm', 'n', ' ', 'h', 'e', 'a', 'd', 'e', 'r', 's', ' ', 'p', 'r', 'e', 's', 'e', 'n', 't', '.',
    ]
}

/// The statements that import a table named `table` with the text columns
/// `columns`: the `CREATE TABLE` and the `INSERT` with one placeholder per
/// column; an error when there is no column.
pub fn import_statements(table: &str, columns: &Vec<String>) -> (r: Result<(String, String), String>)
    ensures
        columns@.len() == 0 ==> (r matches Err(m) && m@ == no_headers_message()),
        columns@.len() > 0 ==> (r matches Ok((c, i)) && c@ == create_table_text(
            table@,
            columns@.map_values(|c: String| c@),
        ) && i@ == insert_text(table@, columns@.len())),
{
    if columns.len() == 0 {
        let v: Vec<char> = vec![
            'N', 'o', ' ', 'c', 'o', 'l', 'u', 'm', 'n', ' ', 'h', 'e', 'a', 'd', 'e', 'r', 's', ' ', 'p', 'r', 'e', 's', 'e', 'n', 't', '.',
        ];
        proof {
            assert(v@ =~= no_headers_message());
        }
        return Err(string_from_chars(&v));
    }
    Ok((create_table_statement(table, columns), insert_statement(table, columns.len())))
}

} // verus!
