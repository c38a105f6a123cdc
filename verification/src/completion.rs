//! The context of a completion at a cursor: the statement under the
//! cursor, the names it defines, the table it refers to, and the kinds of
//! the tokens just before the cursor.
use vstd::prelude::*;

use crate::bridge::{str_to_lowercase, unicode_lowercase};
use crate::cte::{cte_of, entry_views, parse_cte};
use crate::location::{ZeroIndexedLocation, loc_le, loc_lt};
use crate::range::WithZeroIndexedRange;
use crate::scanner::{
    SQLite3ParenAwareTokenScanner, SQLite3TokenScannerOutput, ScanOutputView, ScannerState,
    initial_state, lemma_scan_next_back, scan_measure, scan_next_back, state_ok,
};
use crate::schema::{TableName, TableType};
use crate::split_statements::{
    SingleStatement, SingleStatementView, copy_tokens, split_result, split_sqlite_statements,
    statement_views,
};
use crate::text::{chars_eq, str_chars, string_from_chars, string_views};
use crate::token::{
    SQLite3Keyword, SQLite3KeywordLikeIdentifier, SQLite3Operator, SQLite3Token, SQLite3TokenView,
};
use crate::tokenize::token_views;

verus! {

/// A table that can be completed.
#[derive(Clone, Debug, Eq, PartialEq, Hash)]
pub struct TableCompletion {
    pub schema: String,
    pub table: String,
    pub type_: TableType,
}

/// A column of a table that the statement refers to.
#[derive(Clone, Debug, Eq, PartialEq, Hash)]
pub struct ColumnCompletion {
    pub schema: String,
    pub table: String,
    pub column: String,
}

/// The kinds of the tokens before the cursor.
#[derive(Clone, Copy, Debug, Eq, PartialEq, Hash, Structural)]
#[allow(non_camel_case_types)]
pub enum TokenType {
    JOIN,
    FROM,
    INSERT,
    INTO,
    DROP,
    TABLE,
    VIEW,
    PRAGMA,
    AS,
    IF,
    NOTE,
    EXISTS,
    REPLACE,
    OR,
    DELETE,
    ALTER,
    RENAME,
    COLUMN,
    SELECT,
    WHERE,
    DISTINCT,
    NEW,
    OLD,
    LParen,
    Period,
    Equal,
    SchemaIdent,
    TableIdent,
    Value,
    Group,
    Other,
    StartOfStatement,
}

/// What a completion can offer at a cursor. Each list holds no value
/// twice.
#[derive(Clone, Debug, Eq, PartialEq)]
pub struct Completions {
    pub table_names: Vec<TableCompletion>,
    pub schema_names: Vec<String>,
    pub columns_in_tables_that_are_referenced_in_source: Vec<ColumnCompletion>,
    pub cte_names: Vec<String>,
    pub as_clauses: Vec<String>,
    /// The kinds of the last tokens before the cursor, the nearest last.
    pub last_tokens: Vec<TokenType>,
    pub last_schema: Option<String>,
    pub last_table: Option<String>,
    pub last_create_trigger_table: Option<String>,
}

/// What an alias may follow.
#[derive(Clone, Debug, Eq, PartialEq)]
pub enum AliasableToken {
    Ident(String),
    Other,
}

pub enum AliasableTokenView {
    Ident(Seq<char>),
    Other,
}

impl View for AliasableToken {
    type V = AliasableTokenView;

    open spec fn view(&self) -> AliasableTokenView {
        match self {
            AliasableToken::Ident(s) => AliasableTokenView::Ident(s@),
            AliasableToken::Other => AliasableTokenView::Other,
        }
    }
}

pub open spec fn opt_alias_view(o: Option<AliasableToken>) -> Option<AliasableTokenView> {
    match o {
        Some(a) => Some(a@),
        None => None,
    }
}

pub open spec fn opt_string_view(o: Option<String>) -> Option<Seq<char>> {
    match o {
        Some(s) => Some(s@),
        None => None,
    }
}

// ---------------------------------------------------------------------------
// Specification: single tokens
// ---------------------------------------------------------------------------

/// The kind of a token.
pub open spec fn token_type_of(v: SQLite3TokenView) -> TokenType {
    match v {
        SQLite3TokenView::Keyword(k) => if k == SQLite3Keyword::PRAGMA {
            TokenType::PRAGMA
        } else if k == SQLite3Keyword::JOIN {
            TokenType::JOIN
        } else if k == SQLite3Keyword::FROM {
            TokenType::FROM
        } else if k == SQLite3Keyword::INSERT {
            TokenType::INSERT
        } else if k == SQLite3Keyword::INTO {
            TokenType::INTO
        } else if k == SQLite3Keyword::DROP {
            TokenType::DROP
        } else if k == SQLite3Keyword::TABLE {
            TokenType::TABLE
        } else if k == SQLite3Keyword::VIEW {
            TokenType::VIEW
        } else if k == SQLite3Keyword::AS {
            TokenType::AS
        } else if k == SQLite3Keyword::IF {
            TokenType::IF
        } else if k == SQLite3Keyword::NOT {
            TokenType::NOTE
        } else if k == SQLite3Keyword::EXISTS {
            TokenType::EXISTS
        } else if k == SQLite3Keyword::REPLACE {
            TokenType::REPLACE
        } else if k == SQLite3Keyword::OR {
            TokenType::OR
        } else if k == SQLite3Keyword::DELETE {
            TokenType::DELETE
        } else if k == SQLite3Keyword::ALTER {
            TokenType::ALTER
        } else if k == SQLite3Keyword::RENAME {
            TokenType::RENAME
        } else if k == SQLite3Keyword::COLUMN {
            TokenType::COLUMN
        } else if k == SQLite3Keyword::SELECT {
            TokenType::SELECT
        } else if k == SQLite3Keyword::WHERE {
            TokenType::WHERE
        } else if k == SQLite3Keyword::DISTINCT {
            TokenType::DISTINCT
        } else {
            TokenType::Other
        },
        SQLite3TokenView::Identifier(_, Some(k)) => if k == SQLite3KeywordLikeIdentifier::NEW {
            TokenType::NEW
        } else if k == SQLite3KeywordLikeIdentifier::OLD {
            TokenType::OLD
        } else if k == SQLite3KeywordLikeIdentifier::TRUE || k == SQLite3KeywordLikeIdentifier::FALSE {
            TokenType::Value
        } else {
            TokenType::Other
        },
        SQLite3TokenView::LParen => TokenType::LParen,
        SQLite3TokenView::Period => TokenType::Period,
        SQLite3TokenView::Operator(o) => if o == SQLite3Operator::Eq {
            TokenType::Equal
        } else {
            TokenType::Other
        },
        SQLite3TokenView::NumericLiteral(_) | SQLite3TokenView::StringLiteral(_) | SQLite3TokenView::BlobLiteral(_)
        | SQLite3TokenView::InvalidStringLiteral | SQLite3TokenView::InvalidNumericLiteral => TokenType::Value,
        _ => TokenType::Other,
    }
}

/// What an alias after token `v` would name, given what the alias after
/// the previous token would name.
pub open spec fn alias_follow(v: SQLite3TokenView, previous: Option<AliasableTokenView>) -> Option<
    AliasableTokenView,
> {
    match v {
        SQLite3TokenView::Identifier(value, _) => Some(AliasableTokenView::Ident(value)),
        SQLite3TokenView::Keyword(k) => if k == SQLite3Keyword::AS {
            if previous is Some {
                previous
            } else {
                Some(AliasableTokenView::Other)
            }
        } else {
            None
        },
        SQLite3TokenView::NumericLiteral(_) | SQLite3TokenView::StringLiteral(_) | SQLite3TokenView::BlobLiteral(_)
        | SQLite3TokenView::InvalidNumericLiteral | SQLite3TokenView::InvalidStringLiteral
        | SQLite3TokenView::RParen => Some(AliasableTokenView::Other),
        SQLite3TokenView::Whitespace(_) => previous,
        _ => None,
    }
}

/// The token lies wholly before the cursor: `.`, `(` and `)` may end at
/// it, other tokens must end before it (a word at the cursor is still
/// being typed); whitespace never counts.
pub open spec fn before_cursor(t: WithZeroIndexedRange<SQLite3TokenView>, pos: ZeroIndexedLocation) -> bool {
    match t.value {
        SQLite3TokenView::Whitespace(_) => false,
        SQLite3TokenView::Period | SQLite3TokenView::LParen | SQLite3TokenView::RParen => loc_le(t.range.end, pos),
        _ => loc_lt(t.range.end, pos),
    }
}

// ---------------------------------------------------------------------------
// Specification: the statement under the cursor
// ---------------------------------------------------------------------------

/// The last statement whose text, with its surrounding whitespace, holds
/// the cursor, among the first `n`.
pub open spec fn statement_at(ss: Seq<SingleStatementView>, pos: ZeroIndexedLocation, n: int) -> Option<int>
    decreases n,
{
    if n <= 0 || n > ss.len() {
        None
    } else if loc_le(ss[n - 1].all_text.range.start, pos) && loc_le(pos, ss[n - 1].all_text.range.end) {
        Some(n - 1)
    } else {
        statement_at(ss, pos, n - 1)
    }
}

/// The statements of `sql`; none if it does not split.
pub open spec fn statements_or_none(sql: Seq<char>) -> Seq<SingleStatementView> {
    match split_result(sql) {
        Ok((ss, _)) => ss,
        Err(_) => seq![],
    }
}

// ---------------------------------------------------------------------------
// Specification: the walk from the left
// ---------------------------------------------------------------------------

/// An alias: its name in lower case, as written, and what it names.
pub struct AsEntry {
    pub key: Seq<char>,
    pub orig: Seq<char>,
    pub target: AliasableTokenView,
}

/// The state of the walk over the tokens from the left.
pub struct FwdState {
    /// What an alias here would name.
    pub expect: Option<AliasableTokenView>,
    /// The aliases, in order; a later one replaces an earlier one with
    /// the same key.
    pub as_map: Seq<AsEntry>,
    /// The lower-case names of the tables the statement mentions.
    pub referenced: Seq<Seq<char>>,
    /// The last token before the cursor.
    pub last_before: Option<int>,
    /// How much of `CREATE TRIGGER ... ON` has been read.
    pub trig: int,
    pub trig_table: Option<Seq<char>>,
}

pub open spec fn fwd_initial() -> FwdState {
    FwdState { expect: None, as_map: seq![], referenced: seq![], last_before: None, trig: 0, trig_table: None }
}

/// The next state of the `CREATE TRIGGER ... ON <table>` reading.
pub open spec fn trig_step(ts: int, tt: Option<Seq<char>>, v: SQLite3TokenView) -> (int, Option<Seq<char>>) {
    if v == SQLite3TokenView::Keyword(SQLite3Keyword::CREATE) {
        (1, tt)
    } else if v == SQLite3TokenView::Keyword(SQLite3Keyword::TRIGGER) && ts == 1 {
        (2, tt)
    } else if v == SQLite3TokenView::Keyword(SQLite3Keyword::ON) && ts == 2 {
        (3, tt)
    } else if v is Identifier && ts == 3 {
        (0, Some(v->Identifier_0))
    } else if v is Whitespace {
        (ts, tt)
    } else if ts == 1 {
        (0, tt)
    } else {
        (ts, tt)
    }
}

/// One token `t` (at index `i`) of the walk from the left; `lows` are the
/// lower-case names of the tables.
pub open spec fn fwd_step(
    lows: Seq<Seq<char>>,
    pos: ZeroIndexedLocation,
    st: FwdState,
    t: WithZeroIndexedRange<SQLite3TokenView>,
    i: int,
) -> FwdState {
    let (as_map, expect, referenced) = match t.value {
        SQLite3TokenView::Identifier(v, _) => {
            let key = unicode_lowercase(v);
            (
                match st.expect {
                    Some(tg) => st.as_map.push(AsEntry { key, orig: v, target: tg }),
                    None => st.as_map,
                },
                None::<AliasableTokenView>,
                if lows.contains(key) {
                    st.referenced.push(key)
                } else {
                    st.referenced
                },
            )
        },
        _ => (st.as_map, st.expect, st.referenced),
    };
    let (trig, trig_table) = trig_step(st.trig, st.trig_table, t.value);
    FwdState {
        expect: alias_follow(t.value, expect),
        as_map,
        referenced,
        last_before: if before_cursor(t, pos) {
            Some(i)
        } else {
            st.last_before
        },
        trig,
        trig_table,
    }
}

pub open spec fn fwd_fold(
    lows: Seq<Seq<char>>,
    pos: ZeroIndexedLocation,
    ts: Seq<WithZeroIndexedRange<SQLite3TokenView>>,
    n: nat,
) -> FwdState
    decreases n,
{
    if n == 0 || n > ts.len() {
        fwd_initial()
    } else {
        fwd_step(lows, pos, fwd_fold(lows, pos, ts, (n - 1) as nat), ts[n - 1], n - 1)
    }
}

/// The alias with lower-case name `key`: the last one given.
pub open spec fn as_lookup(m: Seq<AsEntry>, key: Seq<char>) -> Option<AsEntry>
    decreases m.len(),
{
    if m.len() == 0 {
        None
    } else if m.last().key == key {
        Some(m.last())
    } else {
        as_lookup(m.drop_last(), key)
    }
}

// ---------------------------------------------------------------------------
// Specification: the walk from the cursor to the left
// ---------------------------------------------------------------------------

/// The state of the walk back from the cursor.
pub struct BackState {
    /// The kinds of the tokens seen, the nearest to the cursor last.
    pub toks: Seq<TokenType>,
    pub schema: Option<Seq<char>>,
    pub table: Option<Option<Seq<char>>>,
}

pub open spec fn temp_text() -> Seq<char> {
    seq!['t', 'e', 'm', 'p']
}

/// The table that an identifier with lower-case name `l` stands for: the
/// table an alias names, nothing for an alias of something else or for a
/// common table expression, the identifier itself otherwise.
pub open spec fn table_target(
    lows: Seq<Seq<char>>,
    as_map: Seq<AsEntry>,
    ctes: Seq<Seq<char>>,
    v: Seq<char>,
    l: Seq<char>,
) -> Option<Seq<char>> {
    match as_lookup(as_map, l) {
        Some(e) => match e.target {
            AliasableTokenView::Ident(ident) => if lows.contains(unicode_lowercase(ident)) {
                Some(ident)
            } else {
                None
            },
            AliasableTokenView::Other => None,
        },
        None => if exists|k: int| 0 <= k < ctes.len() && unicode_lowercase(#[trigger] ctes[k]) == l {
            None
        } else {
            Some(v)
        },
    }
}

/// One item of the walk back from the cursor.
pub open spec fn back_step(
    lows: Seq<Seq<char>>,
    slows: Seq<Seq<char>>,
    as_map: Seq<AsEntry>,
    ctes: Seq<Seq<char>>,
    bs: BackState,
    o: ScanOutputView,
) -> BackState {
    match o {
        ScanOutputView::StartOfInput => BackState { toks: seq![TokenType::StartOfStatement] + bs.toks, ..bs },
        ScanOutputView::EndOfInput => bs,
        ScanOutputView::Group(_) => BackState { toks: seq![TokenType::Group] + bs.toks, ..bs },
        ScanOutputView::SingleToken(t) => match t.value {
            SQLite3TokenView::Whitespace(_) => bs,
            SQLite3TokenView::Identifier(v, None) => {
                let l = unicode_lowercase(v);
                if slows.contains(l) {
                    BackState {
                        toks: seq![TokenType::SchemaIdent] + bs.toks,
                        schema: if bs.schema is None {
                            Some(v)
                        } else {
                            bs.schema
                        },
                        ..bs
                    }
                } else {
                    BackState {
                        toks: seq![TokenType::TableIdent] + bs.toks,
                        table: if bs.table is None {
                            Some(table_target(lows, as_map, ctes, v, l))
                        } else {
                            bs.table
                        },
                        ..bs
                    }
                }
            },
            _ => if t.value == SQLite3TokenView::Keyword(SQLite3Keyword::TEMP) && bs.toks.len() > 0
                && bs.toks.last() == TokenType::Period {
                BackState {
                    toks: seq![TokenType::SchemaIdent] + bs.toks,
                    schema: if bs.schema is None {
                        Some(temp_text())
                    } else {
                        bs.schema
                    },
                    ..bs
                }
            } else {
                BackState { toks: seq![token_type_of(t.value)] + bs.toks, ..bs }
            },
        },
    }
}

/// The walk back from the cursor over what the scanner hands out from the
/// right, until it is exhausted or seven kinds have been collected.
pub open spec fn back_fold(
    lows: Seq<Seq<char>>,
    slows: Seq<Seq<char>>,
    as_map: Seq<AsEntry>,
    ctes: Seq<Seq<char>>,
    s: ScannerState,
    bs: BackState,
) -> BackState
    decreases scan_measure(s),
    when state_ok(s)
{
    let (s2, o) = scan_next_back(s);
    match o {
        None => bs,
        Some(out) => {
            proof {
                lemma_scan_next_back(s);
            }
            let bs2 = back_step(lows, slows, as_map, ctes, bs, out);
            if bs2.toks.len() >= 7 {
                bs2
            } else {
                back_fold(lows, slows, as_map, ctes, s2, bs2)
            }
        },
    }
}

pub open spec fn back_initial() -> BackState {
    BackState { toks: seq![], schema: None, table: None }
}

// ---------------------------------------------------------------------------
// Specification: the whole context
// ---------------------------------------------------------------------------

pub struct TableNameView {
    pub database: Seq<char>,
    pub name: Seq<char>,
    pub type_: TableType,
}

impl View for TableName {
    type V = TableNameView;

    open spec fn view(&self) -> TableNameView {
        TableNameView { database: self.database@, name: self.name@, type_: self.type_ }
    }
}

pub open spec fn table_views(v: Seq<TableName>) -> Seq<TableNameView> {
    v.map_values(|t: TableName| t@)
}

/// The lower-case names of the tables.
pub open spec fn lower_names(tables: Seq<TableNameView>) -> Seq<Seq<char>> {
    tables.map_values(|t: TableNameView| unicode_lowercase(t.name))
}

/// The lower-case names of the schemas of the tables.
pub open spec fn lower_schemas(tables: Seq<TableNameView>) -> Seq<Seq<char>> {
    tables.map_values(|t: TableNameView| unicode_lowercase(t.database))
}

/// What the walks give for the statement under the cursor.
pub struct CompletionSpec {
    pub fwd: FwdState,
    pub ctes: Seq<Seq<char>>,
    pub back: BackState,
}

pub open spec fn cte_names_of(stmt: SingleStatementView) -> Seq<Seq<char>> {
    match cte_of(stmt) {
        Some(c) => c.entries.map_values(|e: crate::cte::CTEEntryView| e.ident.value),
        None => seq![],
    }
}

/// What the walks give for the statement under the cursor among `ss`,
/// with `lows` and `slows` the lower-case names of the tables and of
/// their schemas.
pub open spec fn context_of(
    ss: Seq<SingleStatementView>,
    pos: ZeroIndexedLocation,
    lows: Seq<Seq<char>>,
    slows: Seq<Seq<char>>,
) -> CompletionSpec {
    match statement_at(ss, pos, ss.len() as int) {
        None => CompletionSpec {
            fwd: fwd_initial(),
            ctes: seq![],
            back: BackState { toks: seq![TokenType::StartOfStatement], schema: None, table: None },
        },
        Some(k) => {
            let stmt = ss[k];
            let fwd = fwd_fold(lows, pos, stmt.real_tokens, stmt.real_tokens.len());
            let ctes = cte_names_of(stmt);
            CompletionSpec {
                fwd,
                ctes,
                back: match fwd.last_before {
                    None => BackState { toks: seq![TokenType::StartOfStatement], schema: None, table: None },
                    Some(lb) => back_fold(
                        lows,
                        slows,
                        fwd.as_map,
                        ctes,
                        initial_state(stmt.real_tokens.subrange(0, lb + 1)),
                        back_initial(),
                    ),
                },
            }
        },
    }
}

pub open spec fn completion_spec(sql: Seq<char>, pos: ZeroIndexedLocation, tables: Seq<TableNameView>) -> CompletionSpec {
    context_of(statements_or_none(sql), pos, lower_names(tables), lower_schemas(tables))
}

/// What the walk back keeps while it runs: fewer than seven kinds so far,
/// and once the start of the input has been handed out, the scanner is
/// exhausted and the start of the statement is the first kind.
pub open spec fn back_walk_ok(s: ScannerState, bs: BackState) -> bool {
    &&& state_ok(s)
    &&& bs.toks.len() < 7
    &&& s.yielded_start ==> {
        &&& s.front >= s.back
        &&& (s.yielded_end || s.back != s.tokens.len())
        &&& bs.toks.len() >= 1
        &&& bs.toks[0] == TokenType::StartOfStatement
    }
}

proof fn lemma_back_fold_bounds(
    lows: Seq<Seq<char>>,
    slows: Seq<Seq<char>>,
    as_map: Seq<AsEntry>,
    ctes: Seq<Seq<char>>,
    s: ScannerState,
    bs: BackState,
)
    requires
        back_walk_ok(s, bs),
    ensures
        ({
            let toks = back_fold(lows, slows, as_map, ctes, s, bs).toks;
            &&& 1 <= toks.len() <= 7
            &&& toks.len() < 7 ==> toks[0] == TokenType::StartOfStatement
        }),
    decreases scan_measure(s),
{
    lemma_scan_next_back(s);
    let (s2, o) = scan_next_back(s);
    match o {
        None => {},
        Some(out) => {
            let bs2 = back_step(lows, slows, as_map, ctes, bs, out);
            assert(bs2.toks.len() <= bs.toks.len() + 1);
            if bs2.toks.len() < 7 {
                assert(back_walk_ok(s2, bs2));
                lemma_back_fold_bounds(lows, slows, as_map, ctes, s2, bs2);
            }
        },
    }
}

/// The kinds of the tokens before the cursor that a completion reports
/// number one to seven; when there are fewer than seven, the walk back
/// reached the start of the statement, which is the first of them.
pub proof fn law_last_tokens_bounded(sql: Seq<char>, pos: ZeroIndexedLocation, tables: Seq<TableNameView>)
    ensures
        ({
            let toks = completion_spec(sql, pos, tables).back.toks;
            &&& 1 <= toks.len() <= 7
            &&& toks.len() < 7 ==> toks[0] == TokenType::StartOfStatement
        }),
{
    let ss = statements_or_none(sql);
    let lows = lower_names(tables);
    let slows = lower_schemas(tables);
    match statement_at(ss, pos, ss.len() as int) {
        None => {},
        Some(k) => {
            let stmt = ss[k];
            let fwd = fwd_fold(lows, pos, stmt.real_tokens, stmt.real_tokens.len());
            match fwd.last_before {
                None => {},
                Some(lb) => {
                    let s0 = initial_state(stmt.real_tokens.subrange(0, lb + 1));
                    assert(back_walk_ok(s0, back_initial()));
                    lemma_back_fold_bounds(lows, slows, fwd.as_map, cte_names_of(stmt), s0, back_initial());
                },
            }
        },
    }
}

/// The keyword that a kind is named after: `NOT` for `NOTE`, the keyword of
/// the same name for `JOIN`, `FROM`, `SELECT` and the other kinds spelled
/// like a keyword; none for the others.
pub open spec fn kind_keyword(t: TokenType) -> Option<SQLite3Keyword> {
    match t {
        TokenType::JOIN => Some(SQLite3Keyword::JOIN),
        TokenType::FROM => Some(SQLite3Keyword::FROM),
        TokenType::INSERT => Some(SQLite3Keyword::INSERT),
        TokenType::INTO => Some(SQLite3Keyword::INTO),
        TokenType::DROP => Some(SQLite3Keyword::DROP),
        TokenType::TABLE => Some(SQLite3Keyword::TABLE),
        TokenType::VIEW => Some(SQLite3Keyword::VIEW),
        TokenType::PRAGMA => Some(SQLite3Keyword::PRAGMA),
        TokenType::AS => Some(SQLite3Keyword::AS),
        TokenType::IF => Some(SQLite3Keyword::IF),
        TokenType::EXISTS => Some(SQLite3Keyword::EXISTS),
        TokenType::REPLACE => Some(SQLite3Keyword::REPLACE),
        TokenType::OR => Some(SQLite3Keyword::OR),
        TokenType::DELETE => Some(SQLite3Keyword::DELETE),
        TokenType::ALTER => Some(SQLite3Keyword::ALTER),
        TokenType::RENAME => Some(SQLite3Keyword::RENAME),
        TokenType::COLUMN => Some(SQLite3Keyword::COLUMN),
        TokenType::SELECT => Some(SQLite3Keyword::SELECT),
        TokenType::WHERE => Some(SQLite3Keyword::WHERE),
        TokenType::DISTINCT => Some(SQLite3Keyword::DISTINCT),
        TokenType::NOTE => Some(SQLite3Keyword::NOT),
        _ => None,
    }
}

/// A kind named after a keyword is the kind of that keyword's token and of
/// no other token: so `FROM` is reported as `TokenType::FROM`, `NOT` as
/// `TokenType::NOTE`, and no two of these keywords share a kind.
pub proof fn law_keyword_kinds(v: SQLite3TokenView, t: TokenType)
    requires
        kind_keyword(t) is Some,
    ensures
        (token_type_of(v) == t) <==> v == SQLite3TokenView::Keyword(kind_keyword(t)->0),
{
}

/// The kinds of the tokens that are not keywords: `(`, `.` and `=` are
/// reported as `LParen`, `Period` and `Equal`; a literal (a number, a
/// string, a blob, also one that does not read well, or `TRUE` or `FALSE`)
/// as a `Value`; the words `NEW` and `OLD` as `NEW` and `OLD`; a comma,
/// `)`, `;`, another operator, a placeholder or whitespace as `Other`.
pub proof fn law_other_token_kinds(v: SQLite3TokenView)
    ensures
        v == SQLite3TokenView::LParen ==> token_type_of(v) == TokenType::LParen,
        v == SQLite3TokenView::Period ==> token_type_of(v) == TokenType::Period,
        v == SQLite3TokenView::Operator(SQLite3Operator::Eq) ==> token_type_of(v) == TokenType::Equal,
        v is NumericLiteral || v is StringLiteral || v is BlobLiteral || v is InvalidNumericLiteral
            || v is InvalidStringLiteral ==> token_type_of(v) == TokenType::Value,
        v matches SQLite3TokenView::Identifier(_, Some(k)) && (k == SQLite3KeywordLikeIdentifier::TRUE || k
            == SQLite3KeywordLikeIdentifier::FALSE) ==> token_type_of(v) == TokenType::Value,
        v matches SQLite3TokenView::Identifier(_, Some(k)) && k == SQLite3KeywordLikeIdentifier::NEW ==> token_type_of(
            v,
        ) == TokenType::NEW,
        v matches SQLite3TokenView::Identifier(_, Some(k)) && k == SQLite3KeywordLikeIdentifier::OLD ==> token_type_of(
            v,
        ) == TokenType::OLD,
        v is Comma || v is RParen || v is SemiColon || v is Placeholder || v is Whitespace || v is InvalidOperator
            || v is InvalidToken || (v is Operator && v != SQLite3TokenView::Operator(SQLite3Operator::Eq))
            ==> token_type_of(v) == TokenType::Other,
{
}

/// Walking back from the cursor over a keyword (but `TEMP`, which may name
/// a schema) puts the kind named after that keyword in front of the kinds
/// collected so far, or `Other` where no kind is named after it.
pub proof fn law_walk_back_over_keyword(
    lows: Seq<Seq<char>>,
    slows: Seq<Seq<char>>,
    as_map: Seq<AsEntry>,
    ctes: Seq<Seq<char>>,
    bs: BackState,
    t: WithZeroIndexedRange<SQLite3TokenView>,
    k: SQLite3Keyword,
)
    requires
        t.value == SQLite3TokenView::Keyword(k),
        k != SQLite3Keyword::TEMP,
    ensures
        ({
            let toks = back_step(lows, slows, as_map, ctes, bs, ScanOutputView::SingleToken(t)).toks;
            &&& forall|kind: TokenType| kind_keyword(kind) == Some(k) ==> toks == seq![kind] + bs.toks
            &&& (forall|kind: TokenType| kind_keyword(kind) != Some(k)) ==> toks == seq![TokenType::Other]
                + bs.toks
        }),
{
    let kind = token_type_of(t.value);
    assert forall|x: TokenType| kind_keyword(x) == Some(k) implies kind == x by {
        law_keyword_kinds(t.value, x);
    }
    if forall|x: TokenType| kind_keyword(x) != Some(k) {
        if kind_keyword(kind) is Some {
            law_keyword_kinds(t.value, kind);
            assert(kind_keyword(kind) == Some(k));
        }
    }
}

/// The names written for the aliases, one per lower-case name.
pub open spec fn as_clause_set(m: Seq<AsEntry>) -> Set<Seq<char>> {
    Set::new(|orig: Seq<char>| exists|key: Seq<char>| #[trigger] as_lookup(m, key) matches Some(e) && e.orig == orig)
}

pub open spec fn table_completion_set(tables: Seq<TableNameView>) -> Set<(Seq<char>, Seq<char>, TableType)> {
    tables.map_values(|t: TableNameView| (t.database, t.name, t.type_)).to_set()
}

pub open spec fn table_completion_views(v: Seq<TableCompletion>) -> Seq<(Seq<char>, Seq<char>, TableType)> {
    v.map_values(|t: TableCompletion| (t.schema@, t.table@, t.type_))
}

pub open spec fn column_completion_views(v: Seq<ColumnCompletion>) -> Seq<(Seq<char>, Seq<char>, Seq<char>)> {
    v.map_values(|c: ColumnCompletion| (c.schema@, c.table@, c.column@))
}

/// The tables whose lower-case names are among `refs`, in order.
pub open spec fn referenced_tables(tables: Seq<TableNameView>, refs: Seq<Seq<char>>, n: nat) -> Seq<TableNameView>
    decreases n,
{
    if n == 0 || n > tables.len() {
        seq![]
    } else if refs.contains(unicode_lowercase(tables[n - 1].name)) {
        referenced_tables(tables, refs, (n - 1) as nat).push(tables[n - 1])
    } else {
        referenced_tables(tables, refs, (n - 1) as nat)
    }
}

pub open spec fn flatten(o: Option<Option<Seq<char>>>) -> Option<Seq<char>> {
    match o {
        Some(Some(x)) => Some(x),
        _ => None,
    }
}

// ---------------------------------------------------------------------------
// Implementation: single tokens
// ---------------------------------------------------------------------------

impl TokenType {
    /// The kind of a token.
    pub fn from_token(value: &SQLite3Token) -> (r: TokenType)
        ensures
            r == token_type_of(value@),
    {
        match value {
            SQLite3Token::Keyword(k) => {
                let k = *k;
                if k == SQLite3Keyword::PRAGMA {
                    TokenType::PRAGMA
                } else if k == SQLite3Keyword::JOIN {
                    TokenType::JOIN
                } else if k == SQLite3Keyword::FROM {
                    TokenType::FROM
                } else if k == SQLite3Keyword::INSERT {
                    TokenType::INSERT
                } else if k == SQLite3Keyword::INTO {
                    TokenType::INTO
                } else if k == SQLite3Keyword::DROP {
                    TokenType::DROP
                } else if k == SQLite3Keyword::TABLE {
                    TokenType::TABLE
                } else if k == SQLite3Keyword::VIEW {
                    TokenType::VIEW
                } else if k == SQLite3Keyword::AS {
                    TokenType::AS
                } else if k == SQLite3Keyword::IF {
                    TokenType::IF
                } else if k == SQLite3Keyword::NOT {
                    TokenType::NOTE
                } else if k == SQLite3Keyword::EXISTS {
                    TokenType::EXISTS
                } else if k == SQLite3Keyword::REPLACE {
                    TokenType::REPLACE
                } else if k == SQLite3Keyword::OR {
                    TokenType::OR
                } else if k == SQLite3Keyword::DELETE {
                    TokenType::DELETE
                } else if k == SQLite3Keyword::ALTER {
                    TokenType::ALTER
                } else if k == SQLite3Keyword::RENAME {
                    TokenType::RENAME
                } else if k == SQLite3Keyword::COLUMN {
                    TokenType::COLUMN
                } else if k == SQLite3Keyword::SELECT {
                    TokenType::SELECT
                } else if k == SQLite3Keyword::WHERE {
                    TokenType::WHERE
                } else if k == SQLite3Keyword::DISTINCT {
                    TokenType::DISTINCT
                } else {
                    TokenType::Other
                }
            },
            SQLite3Token::Identifier(_, Some(k)) => {
                let k = *k;
                if k == SQLite3KeywordLikeIdentifier::NEW {
                    TokenType::NEW
                } else if k == SQLite3KeywordLikeIdentifier::OLD {
                    TokenType::OLD
                } else if k == SQLite3KeywordLikeIdentifier::TRUE || k == SQLite3KeywordLikeIdentifier::FALSE {
                    TokenType::Value
                } else {
                    TokenType::Other
                }
            },
            SQLite3Token::LParen => TokenType::LParen,
            SQLite3Token::Period => TokenType::Period,
            SQLite3Token::Operator(o) => if *o == SQLite3Operator::Eq {
                TokenType::Equal
            } else {
                TokenType::Other
            },
            SQLite3Token::NumericLiteral(_) | SQLite3Token::StringLiteral(_) | SQLite3Token::BlobLiteral(_)
            | SQLite3Token::InvalidStringLiteral | SQLite3Token::InvalidNumericLiteral => TokenType::Value,
            _ => TokenType::Other,
        }
    }
}

impl<'a> From<&'a SQLite3Token> for TokenType {
    fn from(value: &'a SQLite3Token) -> (r: Self) {
        TokenType::from_token(value)
    }
}

impl<'a> vstd::std_specs::convert::FromSpecImpl<&'a SQLite3Token> for TokenType {
    open spec fn obeys_from_spec() -> bool {
        true
    }

    open spec fn from_spec(v: &'a SQLite3Token) -> Self {
        token_type_of(v@)
    }
}

/// What an alias after `token` would name, given what the alias after the
/// previous token would name.
pub fn can_alias_follow(token: &SQLite3Token, previous: Option<AliasableToken>) -> (r: Option<AliasableToken>)
    ensures
        opt_alias_view(r) == alias_follow(token@, opt_alias_view(previous)),
{
    match token {
        SQLite3Token::Identifier(value, _) => Some(AliasableToken::Ident(value.clone())),
        SQLite3Token::Keyword(k) => if *k == SQLite3Keyword::AS {
            if previous.is_some() {
                previous
            } else {
                Some(AliasableToken::Other)
            }
        } else {
            None
        },
        SQLite3Token::NumericLiteral(_) | SQLite3Token::StringLiteral(_) | SQLite3Token::BlobLiteral(_)
        | SQLite3Token::InvalidNumericLiteral | SQLite3Token::InvalidStringLiteral | SQLite3Token::RParen => Some(
            AliasableToken::Other,
        ),
        SQLite3Token::Whitespace(_) => previous,
        _ => None,
    }
}

/// Whether `token` lies wholly before the cursor (see [`before_cursor`]).
pub fn is_token_before_cursor(token: &WithZeroIndexedRange<SQLite3Token>, position: &ZeroIndexedLocation) -> (r: bool)
    ensures
        r == before_cursor(token@, *position),
{
    match &token.value {
        SQLite3Token::Whitespace(_) => false,
        SQLite3Token::Period | SQLite3Token::LParen | SQLite3Token::RParen => token.range.end.le(position),
        _ => token.range.end.lt(position),
    }
}

// ---------------------------------------------------------------------------
// Implementation: helpers on lists of names
// ---------------------------------------------------------------------------

fn same_text(a: &String, b: &String) -> (r: bool)
    ensures
        r == (a@ == b@),
{
    chars_eq(&str_chars(a.as_str()), &str_chars(b.as_str()))
}

fn contains_text(v: &Vec<String>, s: &String) -> (r: bool)
    ensures
        r == string_views(v@).contains(s@),
{
    let mut i: usize = 0;
    while i < v.len()
        invariant
            i <= v@.len(),
            forall|k: int| 0 <= k < i ==> v@[k]@ != s@,
        decreases v@.len() - i,
    {
        if same_text(&v[i], s) {
            proof {
                assert(string_views(v@)[i as int] == s@);
            }
            return true;
        }
        i = i + 1;
    }
    proof {
        assert forall|k: int| 0 <= k < string_views(v@).len() implies string_views(v@)[k] != s@ by {
            assert(v@[k]@ != s@);
        }
    }
    false
}

fn push_unique(v: &mut Vec<String>, s: String)
    requires
        string_views(old(v)@).no_duplicates(),
    ensures
        string_views(final(v)@).no_duplicates(),
        string_views(final(v)@).to_set() == string_views(old(v)@).to_set().insert(s@),
{
    if contains_text(v, &s) {
        proof {
            assert(string_views(v@).to_set() =~= string_views(v@).to_set().insert(s@));
        }
        return;
    }
    let ghost before = string_views(v@);
    let ghost sv = s@;
    v.push(s);
    proof {
        assert(string_views(v@) =~= before.push(sv));
        before.lemma_push_to_set_commute(sv);
        assert forall|a: int, b: int| 0 <= a < b < string_views(v@).len() implies string_views(v@)[a]
            != string_views(v@)[b] by {
            if b == before.len() {
                assert(before[a] == string_views(v@)[a]);
            }
        }
    }
}

fn lowered_names(tables: &Vec<TableName>, schemas: bool) -> (r: Vec<String>)
    ensures
        string_views(r@) == if schemas {
            lower_schemas(table_views(tables@))
        } else {
            lower_names(table_views(tables@))
        },
{
    let mut r: Vec<String> = Vec::new();
    let mut i: usize = 0;
    while i < tables.len()
        invariant
            i <= tables@.len(),
            string_views(r@) == (if schemas {
                lower_schemas(table_views(tables@))
            } else {
                lower_names(table_views(tables@))
            }).subrange(0, i as int),
        decreases tables@.len() - i,
    {
        let t = &tables[i];
        let l = if schemas {
            str_to_lowercase(t.database.as_str())
        } else {
            str_to_lowercase(t.name.as_str())
        };
        let ghost before = string_views(r@);
        let ghost lv = l@;
        r.push(l);
        proof {
            assert(string_views(r@) =~= before.push(lv));
            assert((if schemas {
                lower_schemas(table_views(tables@))
            } else {
                lower_names(table_views(tables@))
            }).subrange(0, i + 1) =~= before.push(lv));
        }
        i = i + 1;
    }
    proof {
        assert((if schemas {
            lower_schemas(table_views(tables@))
        } else {
            lower_names(table_views(tables@))
        }).subrange(0, i as int) =~= (if schemas {
            lower_schemas(table_views(tables@))
        } else {
            lower_names(table_views(tables@))
        }));
    }
    r
}

// ---------------------------------------------------------------------------
// Implementation: the walks
// ---------------------------------------------------------------------------

proof fn lemma_statement_at_bound(ss: Seq<SingleStatementView>, pos: ZeroIndexedLocation, n: int)
    ensures
        statement_at(ss, pos, n) matches Some(k) ==> 0 <= k < n && k < ss.len(),
    decreases n,
{
    if n > 0 && n <= ss.len() {
        lemma_statement_at_bound(ss, pos, n - 1);
    }
}

/// The statement under the cursor (see [`statement_at`]).
fn find_statement(stmts: &Vec<SingleStatement>, position: &ZeroIndexedLocation) -> (r: Option<usize>)
    ensures
        match statement_at(statement_views(stmts@), *position, stmts@.len() as int) {
            Some(k) => r matches Some(i) && i as int == k,
            None => r is None,
        },
{
    let ghost ss = statement_views(stmts@);
    let mut n = stmts.len();
    while n > 0
        invariant
            n <= stmts@.len(),
            ss == statement_views(stmts@),
            statement_at(ss, *position, n as int) == statement_at(ss, *position, stmts@.len() as int),
        decreases n,
    {
        let r = stmts[n - 1].all_text.range;
        proof {
            assert(ss[n - 1].all_text.range == r);
        }
        if r.start.le(position) && position.le(&r.end) {
            return Some(n - 1);
        }
        n = n - 1;
    }
    None
}

/// An alias, as the walk from the left records it.
pub struct AsEntryExec {
    pub key: String,
    pub orig: String,
    pub target: AliasableToken,
}

impl View for AsEntryExec {
    type V = AsEntry;

    open spec fn view(&self) -> AsEntry {
        AsEntry { key: self.key@, orig: self.orig@, target: self.target@ }
    }
}

pub open spec fn as_views(v: Seq<AsEntryExec>) -> Seq<AsEntry> {
    v.map_values(|e: AsEntryExec| e@)
}

/// The walk from the left, as it runs.
pub struct FwdExec {
    pub expect: Option<AliasableToken>,
    pub as_map: Vec<AsEntryExec>,
    pub referenced: Vec<String>,
    pub last_before: Option<usize>,
    pub trig: u8,
    pub trig_table: Option<String>,
}

pub open spec fn fwd_view(f: FwdExec) -> FwdState {
    FwdState {
        expect: opt_alias_view(f.expect),
        as_map: as_views(f.as_map@),
        referenced: string_views(f.referenced@),
        last_before: match f.last_before {
            Some(i) => Some(i as int),
            None => None,
        },
        trig: f.trig as int,
        trig_table: opt_string_view(f.trig_table),
    }
}

fn copy_alias(a: &Option<AliasableToken>) -> (r: Option<AliasableToken>)
    ensures
        opt_alias_view(r) == opt_alias_view(*a),
{
    match a {
        Some(AliasableToken::Ident(s)) => Some(AliasableToken::Ident(s.clone())),
        Some(AliasableToken::Other) => Some(AliasableToken::Other),
        None => None,
    }
}

/// The walk over the real tokens of the statement from the left.
fn walk_forward(lows: &Vec<String>, position: &ZeroIndexedLocation, rt: &Vec<WithZeroIndexedRange<SQLite3Token>>) -> (r:
    FwdExec)
    ensures
        fwd_view(r) == fwd_fold(string_views(lows@), *position, token_views(rt@), rt@.len() as nat),
        r.trig <= 3,
        r.last_before matches Some(i) ==> i < rt@.len(),
{
    let ghost lv = string_views(lows@);
    let ghost ts = token_views(rt@);
    let mut f = FwdExec {
        expect: None,
        as_map: Vec::new(),
        referenced: Vec::new(),
        last_before: None,
        trig: 0,
        trig_table: None,
    };
    proof {
        assert(as_views(f.as_map@) =~= seq![]);
        assert(string_views(f.referenced@) =~= seq![]);
    }
    let mut i: usize = 0;
    while i < rt.len()
        invariant
            i <= rt@.len(),
            lv == string_views(lows@),
            ts == token_views(rt@),
            fwd_view(f) == fwd_fold(lv, *position, ts, i as nat),
            f.trig <= 3,
            f.last_before matches Some(k) ==> k < i,
        decreases rt@.len() - i,
    {
        let t = &rt[i];
        let ghost st = fwd_view(f);
        proof {
            assert(ts[i as int] == t@);
        }
        let mut expect = copy_alias(&f.expect);
        match &t.value {
            SQLite3Token::Identifier(v, _) => {
                let key = str_to_lowercase(v.as_str());
                match expect {
                    Some(target) => {
                        let ghost before = as_views(f.as_map@);
                        let e = AsEntryExec { key: key.clone(), orig: v.clone(), target };
                        f.as_map.push(e);
                        proof {
                            assert(as_views(f.as_map@) =~= before.push(e@));
                        }
                    },
                    None => {},
                }
                expect = None;
                if contains_text(lows, &key) {
                    let ghost before = string_views(f.referenced@);
                    let ghost kv = key@;
                    f.referenced.push(key);
                    proof {
                        assert(string_views(f.referenced@) =~= before.push(kv));
                    }
                }
            },
            _ => {},
        }
        f.expect = can_alias_follow(&t.value, expect);
        if is_token_before_cursor(t, position) {
            f.last_before = Some(i);
        }
        let v = &t.value;
        if matches!(v, SQLite3Token::Keyword(SQLite3Keyword::CREATE)) {
            f.trig = 1;
        } else if matches!(v, SQLite3Token::Keyword(SQLite3Keyword::TRIGGER)) && f.trig == 1 {
            f.trig = 2;
        } else if matches!(v, SQLite3Token::Keyword(SQLite3Keyword::ON)) && f.trig == 2 {
            f.trig = 3;
        } else if matches!(v, SQLite3Token::Identifier(_, _)) && f.trig == 3 {
            f.trig = 0;
            match v {
                SQLite3Token::Identifier(s, _) => {
                    f.trig_table = Some(s.clone());
                },
                _ => {},
            }
        } else if matches!(v, SQLite3Token::Whitespace(_)) {
        } else if f.trig == 1 {
            f.trig = 0;
        }
        proof {
            assert(fwd_view(f) == fwd_step(lv, *position, st, ts[i as int], i as int));
        }
        i = i + 1;
    }
    f
}

proof fn lemma_as_lookup_some(m: Seq<AsEntry>, key: Seq<char>)
    ensures
        as_lookup(m, key) matches Some(e) ==> exists|i: int|
            0 <= i < m.len() && m[i] == e && m[i].key == key && forall|j: int| i < j < m.len() ==> (#[trigger] m[j]).key
                != key,
        as_lookup(m, key) is None ==> forall|j: int| 0 <= j < m.len() ==> (#[trigger] m[j]).key != key,
    decreases m.len(),
{
    if m.len() > 0 {
        lemma_as_lookup_some(m.drop_last(), key);
        if m.last().key != key {
            if as_lookup(m.drop_last(), key) is Some {
                let i = choose|i: int|
                    0 <= i < m.drop_last().len() && m.drop_last()[i] == as_lookup(m.drop_last(), key)->0
                        && m.drop_last()[i].key == key && forall|j: int|
                        i < j < m.drop_last().len() ==> (#[trigger] m.drop_last()[j]).key != key;
                assert(m[i] == m.drop_last()[i]);
                assert forall|j: int| i < j < m.len() implies (#[trigger] m[j]).key != key by {
                    if j < m.len() - 1 {
                        assert(m[j] == m.drop_last()[j]);
                    }
                }
            } else {
                assert forall|j: int| 0 <= j < m.len() implies (#[trigger] m[j]).key != key by {
                    if j < m.len() - 1 {
                        assert(m[j] == m.drop_last()[j]);
                    }
                }
            }
        } else {
            assert(m[m.len() - 1] == m.last());
        }
    }
}

/// An entry is the one that `as_lookup` gives for its key exactly when no
/// later entry has the same key.
proof fn lemma_as_lookup_last(m: Seq<AsEntry>, i: int)
    requires
        0 <= i < m.len(),
    ensures
        (forall|j: int| i < j < m.len() ==> (#[trigger] m[j]).key != m[i].key) ==> as_lookup(m, m[i].key)
            == Some(m[i]),
    decreases m.len(),
{
    if i < m.len() - 1 {
        if forall|j: int| i < j < m.len() ==> (#[trigger] m[j]).key != m[i].key {
            assert(m[m.len() - 1].key != m[i].key);
            assert(m.drop_last()[i] == m[i]);
            assert forall|j: int| i < j < m.drop_last().len() implies (#[trigger] m.drop_last()[j]).key
                != m.drop_last()[i].key by {
                assert(m.drop_last()[j] == m[j]);
            }
            lemma_as_lookup_last(m.drop_last(), i);
        }
    } else {
        assert(m.last() == m[i]);
    }
}

/// The names written for the aliases (see [`as_clause_set`]).
fn alias_names(m: &Vec<AsEntryExec>) -> (r: Vec<String>)
    ensures
        string_views(r@).no_duplicates(),
        string_views(r@).to_set() == as_clause_set(as_views(m@)),
{
    let ghost mv = as_views(m@);
    let mut r: Vec<String> = Vec::new();
    let mut i: usize = 0;
    proof {
        assert(string_views(r@).to_set() =~= Set::<Seq<char>>::empty());
    }
    while i < m.len()
        invariant
            i <= m@.len(),
            mv == as_views(m@),
            string_views(r@).no_duplicates(),
            string_views(r@).to_set() == Set::new(
                |orig: Seq<char>| exists|k: int| 0 <= k < i && mv[k].orig == orig && forall|j: int|
                    k < j < mv.len() ==> (#[trigger] mv[j]).key != mv[k].key,
            ),
        decreases m@.len() - i,
    {
        let mut last = true;
        let mut j = i + 1;
        while j < m.len()
            invariant
                i < j <= m@.len(),
                mv == as_views(m@),
                last == forall|jj: int| i < jj < j ==> (#[trigger] mv[jj]).key != mv[i as int].key,
            decreases m@.len() - j,
        {
            proof {
                assert(mv[j as int] == m@[j as int]@);
                assert(mv[i as int] == m@[i as int]@);
            }
            if same_text(&m[j].key, &m[i].key) {
                last = false;
            }
            j = j + 1;
        }
        let ghost before = string_views(r@).to_set();
        if last {
            push_unique(&mut r, m[i].orig.clone());
            proof {
                assert(mv[i as int] == m@[i as int]@);
            }
        }
        proof {
            assert(string_views(r@).to_set() =~= Set::new(
                |orig: Seq<char>| exists|k: int| 0 <= k < i + 1 && mv[k].orig == orig && forall|j: int|
                    k < j < mv.len() ==> (#[trigger] mv[j]).key != mv[k].key,
            )) by {
                assert forall|orig: Seq<char>| string_views(r@).to_set().contains(orig) implies (exists|k: int|
                    0 <= k < i + 1 && mv[k].orig == orig && forall|j: int|
                        k < j < mv.len() ==> (#[trigger] mv[j]).key != mv[k].key) by {
                    if !before.contains(orig) {
                        assert(orig == mv[i as int].orig);
                    }
                }
            }
        }
        i = i + 1;
    }
    proof {
        assert(string_views(r@).to_set() =~= as_clause_set(mv)) by {
            assert forall|orig: Seq<char>| string_views(r@).to_set().contains(orig) implies as_clause_set(
                mv,
            ).contains(orig) by {
                let k = choose|k: int|
                    0 <= k < mv.len() && mv[k].orig == orig && forall|j: int|
                        k < j < mv.len() ==> (#[trigger] mv[j]).key != mv[k].key;
                lemma_as_lookup_last(mv, k);
                assert(as_lookup(mv, mv[k].key) matches Some(e) && e.orig == orig);
            }
            assert forall|orig: Seq<char>| as_clause_set(mv).contains(orig) implies string_views(
                r@,
            ).to_set().contains(orig) by {
                let key = choose|key: Seq<char>| #[trigger] as_lookup(mv, key) matches Some(e) && e.orig == orig;
                lemma_as_lookup_some(mv, key);
            }
        }
    }
    r
}

/// The alias with lower-case name `key` (see [`as_lookup`]).
fn find_alias(m: &Vec<AsEntryExec>, key: &String) -> (r: Option<usize>)
    ensures
        match as_lookup(as_views(m@), key@) {
            Some(e) => r matches Some(i) && i < m@.len() && m@[i as int]@ == e,
            None => r is None,
        },
{
    let ghost mv = as_views(m@);
    let mut j = m.len();
    proof {
        assert(mv.subrange(0, j as int) =~= mv);
    }
    while j > 0
        invariant
            j <= m@.len(),
            mv == as_views(m@),
            as_lookup(mv, key@) == as_lookup(mv.subrange(0, j as int), key@),
        decreases j,
    {
        proof {
            assert(mv.subrange(0, j as int).drop_last() =~= mv.subrange(0, j - 1));
            assert(mv.subrange(0, j as int).last() == m@[j - 1]@);
        }
        if same_text(&m[j - 1].key, key) {
            return Some(j - 1);
        }
        j = j - 1;
    }
    None
}

/// The table that an identifier `v` with lower-case name `l` stands for
/// (see [`table_target`]).
fn target_table(lows: &Vec<String>, m: &Vec<AsEntryExec>, ctes: &Vec<String>, v: &String, l: &String) -> (r: Option<String>)
    ensures
        opt_string_view(r) == table_target(string_views(lows@), as_views(m@), string_views(ctes@), v@, l@),
{
    match find_alias(m, l) {
        Some(i) => {
            match &m[i].target {
                AliasableToken::Ident(ident) => {
                    let il = str_to_lowercase(ident.as_str());
                    if contains_text(lows, &il) {
                        Some(ident.clone())
                    } else {
                        None
                    }
                },
                AliasableToken::Other => None,
            }
        },
        None => {
            let ghost cv = string_views(ctes@);
            let mut k: usize = 0;
            while k < ctes.len()
                invariant
                    k <= ctes@.len(),
                    cv == string_views(ctes@),
                    as_lookup(as_views(m@), l@) is None,
                    forall|q: int| 0 <= q < k ==> unicode_lowercase(#[trigger] cv[q]) != l@,
                decreases ctes@.len() - k,
            {
                let c = str_to_lowercase(ctes[k].as_str());
                proof {
                    assert(cv[k as int] == ctes@[k as int]@);
                }
                if same_text(&c, l) {
                    proof {
                        assert(unicode_lowercase(cv[k as int]) == l@);
                    }
                    return None;
                }
                k = k + 1;
            }
            Some(v.clone())
        },
    }
}

/// The walk back from the cursor, as it runs.
pub struct BackExec {
    pub toks: Vec<TokenType>,
    pub schema: Option<String>,
    pub table: Option<Option<String>>,
}

pub open spec fn back_view(b: BackExec) -> BackState {
    BackState {
        toks: b.toks@,
        schema: opt_string_view(b.schema),
        table: match b.table {
            Some(t) => Some(opt_string_view(t)),
            None => None,
        },
    }
}

fn temp_string() -> (r: String)
    ensures
        r@ == temp_text(),
{
    let v: Vec<char> = vec!['t', 'e', 'm', 'p'];
    proof {
        assert(v@ =~= temp_text());
    }
    string_from_chars(&v)
}

/// One item of the walk back from the cursor (see [`back_step`]).
fn back_item(
    lows: &Vec<String>,
    slows: &Vec<String>,
    m: &Vec<AsEntryExec>,
    ctes: &Vec<String>,
    bs: &mut BackExec,
    o: &SQLite3TokenScannerOutput,
)
    ensures
        back_view(*final(bs)) == back_step(
            string_views(lows@),
            string_views(slows@),
            as_views(m@),
            string_views(ctes@),
            back_view(*old(bs)),
            o@,
        ),
{
    match o {
        SQLite3TokenScannerOutput::StartOfInput => {
            bs.toks.insert(0, TokenType::StartOfStatement);
        },
        SQLite3TokenScannerOutput::EndOfInput => {},
        SQLite3TokenScannerOutput::Group(_) => {
            bs.toks.insert(0, TokenType::Group);
        },
        SQLite3TokenScannerOutput::SingleToken(t) => {
            match &t.value {
                SQLite3Token::Whitespace(_) => {},
                SQLite3Token::Identifier(v, None) => {
                    let l = str_to_lowercase(v.as_str());
                    if contains_text(slows, &l) {
                        bs.toks.insert(0, TokenType::SchemaIdent);
                        if bs.schema.is_none() {
                            bs.schema = Some(v.clone());
                        }
                    } else {
                        bs.toks.insert(0, TokenType::TableIdent);
                        if bs.table.is_none() {
                            bs.table = Some(target_table(lows, m, ctes, v, &l));
                        }
                    }
                },
                other => {
                    let n = bs.toks.len();
                    if matches!(other, SQLite3Token::Keyword(SQLite3Keyword::TEMP)) && n > 0 && bs.toks[n - 1]
                        == TokenType::Period {
                        bs.toks.insert(0, TokenType::SchemaIdent);
                        if bs.schema.is_none() {
                            bs.schema = Some(temp_string());
                        }
                    } else {
                        bs.toks.insert(0, TokenType::from_token(other));
                    }
                },
            }
        },
    }
    proof {
        assert(back_view(*bs).toks =~= back_step(
            string_views(lows@),
            string_views(slows@),
            as_views(m@),
            string_views(ctes@),
            back_view(*old(bs)),
            o@,
        ).toks);
    }
}

/// The walk back from the cursor over the real tokens up to `lb`.
fn walk_back(
    lows: &Vec<String>,
    slows: &Vec<String>,
    m: &Vec<AsEntryExec>,
    ctes: &Vec<String>,
    rt: &Vec<WithZeroIndexedRange<SQLite3Token>>,
    lb: usize,
) -> (r: BackExec)
    requires
        lb < rt@.len(),
    ensures
        back_view(r) == back_fold(
            string_views(lows@),
            string_views(slows@),
            as_views(m@),
            string_views(ctes@),
            initial_state(token_views(rt@).subrange(0, lb + 1)),
            back_initial(),
        ),
{
    let ghost lv = string_views(lows@);
    let ghost sv = string_views(slows@);
    let ghost mv = as_views(m@);
    let ghost cv = string_views(ctes@);
    let n = rt.len();
    let sub = copy_tokens(rt, 0, lb + 1);
    let mut it = SQLite3ParenAwareTokenScanner::new(sub.as_slice());
    let ghost init = it@;
    let mut bs = BackExec { toks: Vec::new(), schema: None, table: None };
    proof {
        assert(back_view(bs) =~= back_initial());
        assert(init.tokens == token_views(sub@));
    }
    loop
        invariant
            it.wf(),
            state_ok(it@),
            lv == string_views(lows@),
            sv == string_views(slows@),
            mv == as_views(m@),
            cv == string_views(ctes@),
            init == initial_state(token_views(rt@).subrange(0, lb + 1)),
            bs.toks@.len() < 7,
            back_fold(lv, sv, mv, cv, it@, back_view(bs)) == back_fold(lv, sv, mv, cv, init, back_initial()),
        decreases scan_measure(it@),
    {
        let ghost s = it@;
        proof {
            lemma_scan_next_back(s);
        }
        match it.next_back() {
            None => {
                return bs;
            },
            Some(o) => {
                back_item(lows, slows, m, ctes, &mut bs, &o);
                if bs.toks.len() >= 7 {
                    return bs;
                }
            },
        }
    }
}

fn push_unique_table(v: &mut Vec<TableCompletion>, t: TableCompletion)
    requires
        table_completion_views(old(v)@).no_duplicates(),
    ensures
        table_completion_views(final(v)@).no_duplicates(),
        table_completion_views(final(v)@).to_set() == table_completion_views(old(v)@).to_set().insert(
            (t.schema@, t.table@, t.type_),
        ),
{
    let ghost before = table_completion_views(v@);
    let ghost tv = (t.schema@, t.table@, t.type_);
    let mut i: usize = 0;
    while i < v.len()
        invariant
            i <= v@.len(),
            before == table_completion_views(v@),
            before.no_duplicates(),
            tv == (t.schema@, t.table@, t.type_),
            forall|k: int| 0 <= k < i ==> before[k] != tv,
        decreases v@.len() - i,
    {
        proof {
            assert(before[i as int] == (v@[i as int].schema@, v@[i as int].table@, v@[i as int].type_));
        }
        if same_text(&v[i].schema, &t.schema) && same_text(&v[i].table, &t.table) && v[i].type_ == t.type_ {
            proof {
                assert(before[i as int] == tv);
                assert(before.to_set() =~= before.to_set().insert(tv));
            }
            return;
        }
        i = i + 1;
    }
    v.push(t);
    proof {
        assert(table_completion_views(v@) =~= before.push(tv));
        before.lemma_push_to_set_commute(tv);
        assert forall|a: int, b: int| 0 <= a < b < table_completion_views(v@).len() implies table_completion_views(
            v@,
        )[a] != table_completion_views(v@)[b] by {
            if b == before.len() {
                assert(before[a] == table_completion_views(v@)[a]);
            }
        }
    }
}

fn copy_table(t: &TableName) -> (r: TableName)
    ensures
        r@ == t@,
{
    TableName { database: t.database.clone(), name: t.name.clone(), type_: t.type_ }
}

/// The walks over the statement under the cursor (see [`context_of`]).
fn statement_context(
    stmts: &Vec<SingleStatement>,
    position: &ZeroIndexedLocation,
    lows: &Vec<String>,
    slows: &Vec<String>,
) -> (r: (FwdExec, Vec<String>, BackExec))
    ensures
        fwd_view(r.0) == context_of(statement_views(stmts@), *position, string_views(lows@), string_views(slows@)).fwd,
        string_views(r.1@) == context_of(statement_views(stmts@), *position, string_views(lows@), string_views(slows@)).ctes,
        back_view(r.2) == context_of(statement_views(stmts@), *position, string_views(lows@), string_views(slows@)).back,
{
    let ghost cx = context_of(statement_views(stmts@), *position, string_views(lows@), string_views(slows@));
    let mut cte_list: Vec<String> = Vec::new();
    let mut back = BackExec { toks: Vec::new(), schema: None, table: None };
    back.toks.push(TokenType::StartOfStatement);
    proof {
        lemma_statement_at_bound(statement_views(stmts@), *position, stmts@.len() as int);
        assert(back.toks@ =~= seq![TokenType::StartOfStatement]);
    }
    match find_statement(stmts, position) {
        None => {
            let fwd = FwdExec {
                expect: None,
                as_map: Vec::new(),
                referenced: Vec::new(),
                last_before: None,
                trig: 0,
                trig_table: None,
            };
            proof {
                assert(as_views(fwd.as_map@) =~= seq![]);
                assert(string_views(fwd.referenced@) =~= seq![]);
                assert(string_views(cte_list@) =~= seq![]);
                assert(fwd_view(fwd) == fwd_initial());
                assert(back_view(back) == cx.back);
            }
            (fwd, cte_list, back)
        },
        Some(k) => {
            let stmt = &stmts[k];
            proof {
                assert(statement_views(stmts@)[k as int] == stmt@);
            }
            let fwd = walk_forward(lows, position, &stmt.real_tokens);
            match parse_cte(stmt) {
                Some(c) => {
                    let ghost ev = entry_views(c.entries@);
                    let mut j: usize = 0;
                    while j < c.entries.len()
                        invariant
                            j <= c.entries@.len(),
                            ev == entry_views(c.entries@),
                            string_views(cte_list@) == ev.subrange(0, j as int).map_values(
                                |e: crate::cte::CTEEntryView| e.ident.value,
                            ),
                        decreases c.entries@.len() - j,
                    {
                        let ghost before = string_views(cte_list@);
                        let name = c.entries[j].ident.value.clone();
                        let ghost nv = name@;
                        cte_list.push(name);
                        proof {
                            assert(string_views(cte_list@) =~= before.push(nv));
                            assert(ev.subrange(0, j + 1).map_values(|e: crate::cte::CTEEntryView| e.ident.value)
                                =~= ev.subrange(0, j as int).map_values(
                                |e: crate::cte::CTEEntryView| e.ident.value,
                            ).push(nv));
                        }
                        j = j + 1;
                    }
                    proof {
                        assert(ev.subrange(0, ev.len() as int) =~= ev);
                    }
                },
                None => {
                    proof {
                        assert(string_views(cte_list@) =~= seq![]);
                    }
                },
            }
            proof {
                assert(string_views(cte_list@) =~= cte_names_of(stmt@));
            }
            proof {
                assert(statement_at(statement_views(stmts@), *position, stmts@.len() as int) == Some(k as int));
                assert(fwd_view(fwd) == cx.fwd);
                assert(string_views(cte_list@) == cx.ctes);
            }
            match fwd.last_before {
                None => {
                    proof {
                        assert(back_view(back) == cx.back);
                    }
                },
                Some(lb) => {
                    back = walk_back(lows, slows, &fwd.as_map, &cte_list, &stmt.real_tokens, lb);
                    proof {
                        assert(back_view(back) == cx.back);
                    }
                },
            }
            (fwd, cte_list, back)
        },
    }
}

/// The context of a completion at `position` in `sql`, given the tables of
/// the database; with it, the tables whose columns the statement may use,
/// for [`add_columns`].
pub fn complete(sql: &str, position: &ZeroIndexedLocation, tables: &Vec<TableName>) -> (r: (Completions, Vec<TableName>))
    ensures
        ({
            let tv = table_views(tables@);
            let cs = completion_spec(sql@, *position, tv);
            &&& table_completion_views(r.0.table_names@).no_duplicates()
            &&& table_completion_views(r.0.table_names@).to_set() == table_completion_set(tv)
            &&& string_views(r.0.schema_names@).no_duplicates()
            &&& string_views(r.0.schema_names@).to_set() == tv.map_values(|t: TableNameView| t.database).to_set()
            &&& r.0.columns_in_tables_that_are_referenced_in_source@.len() == 0
            &&& string_views(r.0.cte_names@).no_duplicates()
            &&& string_views(r.0.cte_names@).to_set() == cs.ctes.to_set()
            &&& string_views(r.0.as_clauses@).no_duplicates()
            &&& string_views(r.0.as_clauses@).to_set() == as_clause_set(cs.fwd.as_map)
            &&& r.0.last_tokens@ == cs.back.toks
            &&& opt_string_view(r.0.last_schema) == cs.back.schema
            &&& opt_string_view(r.0.last_table) == flatten(cs.back.table)
            &&& opt_string_view(r.0.last_create_trigger_table) == cs.fwd.trig_table
            &&& table_views(r.1@) == referenced_tables(tv, cs.fwd.referenced, tv.len())
        }),
{
    let ghost tv = table_views(tables@);
    let stmts = match split_sqlite_statements(sql) {
        Ok((s, _)) => s,
        Err(_) => Vec::new(),
    };
    proof {
        assert(statement_views(stmts@) =~= statements_or_none(sql@));
    }
    let lows = lowered_names(tables, false);
    let slows = lowered_names(tables, true);
    // The tables and the schemas.
    let mut table_names: Vec<TableCompletion> = Vec::new();
    let mut schema_names: Vec<String> = Vec::new();
    let ghost tset = tv.map_values(|t: TableNameView| (t.database, t.name, t.type_));
    let ghost dbs = tv.map_values(|t: TableNameView| t.database);
    proof {
        assert(table_completion_views(table_names@).to_set() =~= tset.subrange(0, 0).to_set());
        assert(string_views(schema_names@).to_set() =~= dbs.subrange(0, 0).to_set());
    }
    let mut i: usize = 0;
    while i < tables.len()
        invariant
            i <= tables@.len(),
            tv == table_views(tables@),
            tset == tv.map_values(|t: TableNameView| (t.database, t.name, t.type_)),
            dbs == tv.map_values(|t: TableNameView| t.database),
            table_completion_views(table_names@).no_duplicates(),
            table_completion_views(table_names@).to_set() == tset.subrange(0, i as int).to_set(),
            string_views(schema_names@).no_duplicates(),
            string_views(schema_names@).to_set() == dbs.subrange(0, i as int).to_set(),
        decreases tables@.len() - i,
    {
        let t = &tables[i];
        push_unique_table(
            &mut table_names,
            TableCompletion { schema: t.database.clone(), table: t.name.clone(), type_: t.type_ },
        );
        push_unique(&mut schema_names, t.database.clone());
        proof {
            assert(tset.subrange(0, i + 1) =~= tset.subrange(0, i as int).push(tset[i as int]));
            tset.subrange(0, i as int).lemma_push_to_set_commute(tset[i as int]);
            assert(dbs.subrange(0, i + 1) =~= dbs.subrange(0, i as int).push(dbs[i as int]));
            dbs.subrange(0, i as int).lemma_push_to_set_commute(dbs[i as int]);
        }
        i = i + 1;
    }
    proof {
        assert(tset.subrange(0, tset.len() as int) =~= tset);
        assert(dbs.subrange(0, dbs.len() as int) =~= dbs);
    }
    // The statement under the cursor.
    let (fwd, cte_list, back) = statement_context(&stmts, position, &lows, &slows);
    let ghost cs = completion_spec(sql@, *position, tv);
    proof {
        assert(cs == context_of(statement_views(stmts@), *position, string_views(lows@), string_views(slows@)));
    }
    // The names of the common table expressions, each once.
    let mut cte_names: Vec<String> = Vec::new();
    let ghost cl = string_views(cte_list@);
    proof {
        assert(string_views(cte_names@).to_set() =~= cl.subrange(0, 0).to_set());
    }
    let mut j: usize = 0;
    while j < cte_list.len()
        invariant
            j <= cte_list@.len(),
            cl == string_views(cte_list@),
            string_views(cte_names@).no_duplicates(),
            string_views(cte_names@).to_set() == cl.subrange(0, j as int).to_set(),
        decreases cte_list@.len() - j,
    {
        push_unique(&mut cte_names, cte_list[j].clone());
        proof {
            assert(cl.subrange(0, j + 1) =~= cl.subrange(0, j as int).push(cl[j as int]));
            cl.subrange(0, j as int).lemma_push_to_set_commute(cl[j as int]);
        }
        j = j + 1;
    }
    proof {
        assert(cl.subrange(0, cl.len() as int) =~= cl);
    }
    let as_clauses = alias_names(&fwd.as_map);
    // The tables whose columns the statement may use.
    let mut fetch: Vec<TableName> = Vec::new();
    let ghost refs = string_views(fwd.referenced@);
    proof {
        assert(string_views(lows@).len() == lows@.len());
        assert(lower_names(tv).len() == tables@.len());
    }
    let mut q: usize = 0;
    while q < tables.len()
        invariant
            q <= tables@.len(),
            tv == table_views(tables@),
            string_views(lows@) == lower_names(tv),
            lows@.len() == tables@.len(),
            refs == string_views(fwd.referenced@),
            table_views(fetch@) == referenced_tables(tv, refs, q as nat),
        decreases tables@.len() - q,
    {
        proof {
            assert(string_views(lows@)[q as int] == unicode_lowercase(tv[q as int].name));
            assert(string_views(lows@)[q as int] == lows@[q as int]@);
        }
        if contains_text(&fwd.referenced, &lows[q]) {
            let ghost before = table_views(fetch@);
            let t = copy_table(&tables[q]);
            fetch.push(t);
            proof {
                assert(table_views(fetch@) =~= before.push(tv[q as int]));
            }
        }
        q = q + 1;
    }
    let last_table = match back.table {
        Some(Some(t)) => Some(t),
        _ => None,
    };
    proof {
        assert(table_completion_set(tv) == tset.to_set());
        assert(string_views(cte_names@).to_set() == cs.ctes.to_set());
        assert(as_views(fwd.as_map@) == cs.fwd.as_map);
        assert(back.toks@ == cs.back.toks);
        assert(opt_string_view(back.schema) == cs.back.schema);
        assert(opt_string_view(last_table) == flatten(cs.back.table));
        assert(opt_string_view(fwd.trig_table) == cs.fwd.trig_table);
        assert(refs == cs.fwd.referenced);
    }
    let c = Completions {
        table_names,
        schema_names,
        columns_in_tables_that_are_referenced_in_source: Vec::new(),
        cte_names,
        as_clauses,
        last_tokens: back.toks,
        last_schema: back.schema,
        last_table,
        last_create_trigger_table: fwd.trig_table,
    };
    (c, fetch)
}

pub open spec fn column_set_after(
    old_cols: Set<(Seq<char>, Seq<char>, Seq<char>)>,
    t: TableNameView,
    columns: Seq<Seq<char>>,
) -> Set<(Seq<char>, Seq<char>, Seq<char>)> {
    old_cols.union(columns.map_values(|c: Seq<char>| (t.database, t.name, c)).to_set())
}

/// Adds the columns of a table that the statement may use.
pub fn add_columns(c: &mut Completions, table: &TableName, columns: &Vec<String>)
    requires
        column_completion_views(old(c).columns_in_tables_that_are_referenced_in_source@).no_duplicates(),
    ensures
        column_completion_views(final(c).columns_in_tables_that_are_referenced_in_source@).no_duplicates(),
        column_completion_views(final(c).columns_in_tables_that_are_referenced_in_source@).to_set()
            == column_set_after(
            column_completion_views(old(c).columns_in_tables_that_are_referenced_in_source@).to_set(),
            table@,
            string_views(columns@),
        ),
        final(c).table_names == old(c).table_names,
        final(c).schema_names == old(c).schema_names,
        final(c).cte_names == old(c).cte_names,
        final(c).as_clauses == old(c).as_clauses,
        final(c).last_tokens == old(c).last_tokens,
        final(c).last_schema == old(c).last_schema,
        final(c).last_table == old(c).last_table,
        final(c).last_create_trigger_table == old(c).last_create_trigger_table,
{
    let ghost start = column_completion_views(c.columns_in_tables_that_are_referenced_in_source@).to_set();
    let ghost cols = string_views(columns@).map_values(|col: Seq<char>| (table@.database, table@.name, col));
    proof {
        assert(cols.subrange(0, 0).to_set() =~= Set::empty());
        assert(start =~= start.union(Set::empty()));
    }
    let mut i: usize = 0;
    while i < columns.len()
        invariant
            i <= columns@.len(),
            cols == string_views(columns@).map_values(|col: Seq<char>| (table@.database, table@.name, col)),
            column_completion_views(c.columns_in_tables_that_are_referenced_in_source@).no_duplicates(),
            column_completion_views(c.columns_in_tables_that_are_referenced_in_source@).to_set() == start.union(
                cols.subrange(0, i as int).to_set(),
            ),
            c.table_names == old(c).table_names,
            c.schema_names == old(c).schema_names,
            c.cte_names == old(c).cte_names,
            c.as_clauses == old(c).as_clauses,
            c.last_tokens == old(c).last_tokens,
            c.last_schema == old(c).last_schema,
            c.last_table == old(c).last_table,
            c.last_create_trigger_table == old(c).last_create_trigger_table,
            start == column_completion_views(old(c).columns_in_tables_that_are_referenced_in_source@).to_set(),
        decreases columns@.len() - i,
    {
        let item = ColumnCompletion { schema: table.database.clone(), table: table.name.clone(), column: columns[i].clone() };
        let ghost iv = (item.schema@, item.table@, item.column@);
        let ghost before = column_completion_views(c.columns_in_tables_that_are_referenced_in_source@);
        let mut found = false;
        let mut k: usize = 0;
        while k < c.columns_in_tables_that_are_referenced_in_source.len()
            invariant
                k <= c.columns_in_tables_that_are_referenced_in_source@.len(),
                before == column_completion_views(c.columns_in_tables_that_are_referenced_in_source@),
                iv == (item.schema@, item.table@, item.column@),
                found == exists|kk: int| 0 <= kk < k && before[kk] == iv,
            decreases c.columns_in_tables_that_are_referenced_in_source@.len() - k,
        {
            let x = &c.columns_in_tables_that_are_referenced_in_source[k];
            proof {
                assert(before[k as int] == (x.schema@, x.table@, x.column@));
            }
            if same_text(&x.schema, &item.schema) && same_text(&x.table, &item.table) && same_text(&x.column, &item.column) {
                proof {
                    assert(before[k as int] == iv);
                }
                found = true;
            }
            k = k + 1;
        }
        proof {
            assert(cols[i as int] == iv);
            assert(cols.subrange(0, i + 1) =~= cols.subrange(0, i as int).push(iv));
            cols.subrange(0, i as int).lemma_push_to_set_commute(iv);
        }
        if !found {
            c.columns_in_tables_that_are_referenced_in_source.push(item);
            proof {
                assert(column_completion_views(c.columns_in_tables_that_are_referenced_in_source@) =~= before.push(iv));
                before.lemma_push_to_set_commute(iv);
                assert forall|a: int, b: int|
                    0 <= a < b < column_completion_views(c.columns_in_tables_that_are_referenced_in_source@).len()
                    implies column_completion_views(c.columns_in_tables_that_are_referenced_in_source@)[a]
                    != column_completion_views(c.columns_in_tables_that_are_referenced_in_source@)[b] by {
                    if b == before.len() {
                        assert(before[a] == column_completion_views(c.columns_in_tables_that_are_referenced_in_source@)[a]);
                    }
                }
                assert(column_completion_views(c.columns_in_tables_that_are_referenced_in_source@).to_set() =~= start.union(
                    cols.subrange(0, i + 1).to_set(),
                ));
            }
        } else {
            proof {
                assert(before.to_set().contains(iv));
                assert(column_completion_views(c.columns_in_tables_that_are_referenced_in_source@).to_set() =~= start.union(
                    cols.subrange(0, i + 1).to_set(),
                ));
            }
        }
        i = i + 1;
    }
    proof {
        assert(cols.subrange(0, cols.len() as int) =~= cols);
    }
}

} // verus!
