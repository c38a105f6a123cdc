//! Code lenses: the statements of a script that can be run, each with
//! the text to run, its placeholders and the table it modifies.
use vstd::prelude::*;

use crate::cte::{CTEEntryView, CommonTableExpressionView, cte_of, parse_cte};
use crate::location::{ZeroIndexedLocation, loc_le, loc_lt};
use crate::placeholders::{Placeholder, PlaceholderView, placeholder_views, placeholders_of, try_list_placeholders};
use crate::range::{WithZeroIndexedRange, ZeroIndexedRange, range_fits, range_text};
use crate::split_statements::{
    SingleStatement, SingleStatementView, split_result, split_sqlite_statements, statement_views,
};
use crate::table_to_be_modified::{
    TableToBeModified, TableToBeModifiedView, get_table_to_be_modified, opt_table_view,
    table_to_be_modified,
};
use crate::text::{lines_of, str_chars, str_views, string_from_chars, text_lines};
use crate::token::{SQLite3Keyword, SQLite3Token, SQLite3TokenView};
use crate::tokenize::token_views;

verus! {

/// What running a code lens does.
#[derive(Clone, Copy, Debug, Eq, PartialEq, Structural)]
pub enum CodeLensKind {
    Select,
    Explain,
    Other,
}

/// A statement (or a common table expression) that can be run.
#[derive(Clone, Debug, Eq, PartialEq)]
pub struct CodeLens {
    pub kind: CodeLensKind,
    pub range: ZeroIndexedRange,
    pub stmt_executed: String,
    pub cte_identifier: Option<String>,
    pub placeholders: Vec<Placeholder>,
    pub table_to_be_shown: Option<TableToBeModified>,
}

pub struct CodeLensView {
    pub kind: CodeLensKind,
    pub range: ZeroIndexedRange,
    pub stmt_executed: Seq<char>,
    pub cte_identifier: Option<Seq<char>>,
    pub placeholders: Seq<PlaceholderView>,
    pub table_to_be_shown: Option<TableToBeModifiedView>,
}

impl View for CodeLens {
    type V = CodeLensView;

    open spec fn view(&self) -> CodeLensView {
        CodeLensView {
            kind: self.kind,
            range: self.range,
            stmt_executed: self.stmt_executed@,
            cte_identifier: crate::placeholders::opt_str_view(self.cte_identifier),
            placeholders: placeholder_views(self.placeholders@),
            table_to_be_shown: opt_table_view(self.table_to_be_shown),
        }
    }
}

pub open spec fn lens_views(v: Seq<CodeLens>) -> Seq<CodeLensView> {
    v.map_values(|l: CodeLens| l@)
}

/// The parameters of the code-lens command.
#[derive(Clone, Debug, Eq, PartialEq)]
pub struct CodeLensCommandParams {
    pub query: String,
}

// ---------------------------------------------------------------------------
// Quoting identifiers
// ---------------------------------------------------------------------------

/// `s` with every backtick doubled.
pub open spec fn double_backticks(s: Seq<char>) -> Seq<char>
    decreases s.len(),
{
    if s.len() == 0 {
        seq![]
    } else if s.last() == '`' {
        double_backticks(s.drop_last()) + seq!['`', '`']
    } else {
        double_backticks(s.drop_last()).push(s.last())
    }
}

/// `s` quoted as an SQLite identifier, between backticks.
pub open spec fn escaped_identifier(s: Seq<char>) -> Seq<char> {
    seq!['`'] + double_backticks(s) + seq!['`']
}

/// Reads a doubled backtick back as one: the inverse of [`double_backticks`].
pub open spec fn undouble_backticks(s: Seq<char>) -> Seq<char>
    decreases s.len(),
{
    if s.len() == 0 {
        seq![]
    } else if s.len() >= 2 && s.last() == '`' && s[s.len() - 2] == '`' {
        undouble_backticks(s.subrange(0, s.len() - 2)).push('`')
    } else {
        undouble_backticks(s.drop_last()).push(s.last())
    }
}

proof fn lemma_undouble_double(s: Seq<char>)
    ensures
        undouble_backticks(double_backticks(s)) == s,
    decreases s.len(),
{
    if s.len() > 0 {
        lemma_undouble_double(s.drop_last());
        let d = double_backticks(s.drop_last());
        if s.last() == '`' {
            let t = d + seq!['`', '`'];
            assert(t.subrange(0, t.len() - 2) =~= d);
        } else {
            assert(d.push(s.last()).drop_last() =~= d);
        }
        assert(s.drop_last().push(s.last()) =~= s);
    }
}

/// Quoting loses nothing: the identifier can be read back from its quoted
/// form, so two different identifiers never quote the same.
pub proof fn law_escape_identifier_reversible(a: Seq<char>, b: Seq<char>)
    ensures
        ({
            let q = escaped_identifier(a);
            undouble_backticks(q.subrange(1, q.len() - 1)) == a
        }),
        escaped_identifier(a) == escaped_identifier(b) ==> a == b,
{
    let q = escaped_identifier(a);
    assert(q.subrange(1, q.len() - 1) =~= double_backticks(a));
    lemma_undouble_double(a);
    let r = escaped_identifier(b);
    assert(r.subrange(1, r.len() - 1) =~= double_backticks(b));
    lemma_undouble_double(b);
}

/// Quotes `ident` as an SQLite identifier: between backticks, with each
/// backtick inside doubled.
pub fn escape_sql_identifier(ident: &str) -> (r: String)
    ensures
        r@ == escaped_identifier(ident@),
{
    let c = str_chars(ident);
    let mut out: Vec<char> = Vec::new();
    out.push('`');
    let mut i: usize = 0;
    while i < c.len()
        invariant
            i <= c@.len(),
            c@ == ident@,
            out@ == seq!['`'] + double_backticks(c@.subrange(0, i as int)),
        decreases c@.len() - i,
    {
        proof {
            assert(c@.subrange(0, i + 1).drop_last() =~= c@.subrange(0, i as int));
        }
        if c[i] == '`' {
            out.push('`');
            out.push('`');
            proof {
                assert(out@ =~= seq!['`'] + double_backticks(c@.subrange(0, i + 1)));
            }
        } else {
            out.push(c[i]);
            proof {
                assert(out@ =~= seq!['`'] + double_backticks(c@.subrange(0, i + 1)));
            }
        }
        i = i + 1;
    }
    out.push('`');
    proof {
        assert(c@.subrange(0, c@.len() as int) =~= c@);
    }
    string_from_chars(&out)
}

// ---------------------------------------------------------------------------
// Specification
// ---------------------------------------------------------------------------

/// `"SELECT * FROM "`.
pub open spec fn select_from_text() -> Seq<char> {
    seq!['S', 'E', 'L', 'E', 'C', 'T', ' ', '*', ' ', 'F', 'R', 'O', 'M', ' ']
}

/// The statement that shows the rows of a common table expression: the
/// `WITH` clause, then `SELECT * FROM` the quoted name.
pub open spec fn cte_select(with_clause: Seq<char>, ident: Seq<char>) -> Seq<char> {
    with_clause + (if with_clause.len() > 0 && with_clause.last() == ' ' {
        seq![]
    } else {
        seq![' ']
    }) + select_from_text() + ident
}

/// The lens of one entry of a `WITH` clause: `None` where a range does not
/// fit the text or a `?NNN` placeholder cannot be read, `Some(None)` where
/// the statement built for it does not split into a statement.
pub open spec fn entry_lens(
    lines: Seq<Seq<char>>,
    stmt: SingleStatementView,
    cte: CommonTableExpressionView,
    e: CTEEntryView,
) -> Option<Option<CodeLensView>> {
    let wr = ZeroIndexedRange { start: stmt.real_text.range.start, end: cte.body_range.start };
    if !range_fits(lines, wr) || !range_fits(lines, e.ident.range) {
        None
    } else {
        let ident = escaped_identifier(range_text(lines, e.ident.range));
        let executed = cte_select(range_text(lines, wr), ident);
        match split_result(executed) {
            Err(_) => Some(None),
            Ok((ss, _)) => if ss.len() == 0 {
                Some(None)
            } else {
                match placeholders_of(ss[0]) {
                    None => None,
                    Some(ph) => Some(
                        Some(
                            CodeLensView {
                                kind: CodeLensKind::Select,
                                range: e.ident.range,
                                stmt_executed: executed,
                                cte_identifier: Some(ident),
                                placeholders: ph,
                                table_to_be_shown: None,
                            },
                        ),
                    ),
                }
            },
        }
    }
}

/// The lenses of the first `n` entries of a `WITH` clause.
pub open spec fn entry_lenses(
    lines: Seq<Seq<char>>,
    stmt: SingleStatementView,
    cte: CommonTableExpressionView,
    n: nat,
) -> Option<Seq<CodeLensView>>
    decreases n,
{
    if n == 0 || n > cte.entries.len() {
        Some(seq![])
    } else {
        match entry_lenses(lines, stmt, cte, (n - 1) as nat) {
            None => None,
            Some(acc) => match entry_lens(lines, stmt, cte, cte.entries[n - 1]) {
                None => None,
                Some(None) => Some(acc),
                Some(Some(l)) => Some(acc.push(l)),
            },
        }
    }
}

/// What running a statement that starts with keyword `k` does.
pub open spec fn keyword_kind(k: SQLite3Keyword) -> Option<CodeLensKind> {
    if k == SQLite3Keyword::SELECT || k == SQLite3Keyword::VALUES {
        Some(CodeLensKind::Select)
    } else if k == SQLite3Keyword::EXPLAIN {
        Some(CodeLensKind::Explain)
    } else if k == SQLite3Keyword::INSERT || k == SQLite3Keyword::DELETE || k == SQLite3Keyword::UPDATE
        || k == SQLite3Keyword::REPLACE || k == SQLite3Keyword::DROP || k == SQLite3Keyword::CREATE
        || k == SQLite3Keyword::ALTER || k == SQLite3Keyword::ANALYZE || k == SQLite3Keyword::BEGIN
        || k == SQLite3Keyword::VACUUM || k == SQLite3Keyword::ATTACH || k == SQLite3Keyword::DETACH
        || k == SQLite3Keyword::PRAGMA || k == SQLite3Keyword::REINDEX {
        Some(CodeLensKind::Other)
    } else {
        None
    }
}

/// The kind of the first token from `i` on that starts at or after `from`
/// and is a keyword with a kind.
pub open spec fn kind_from(ts: Seq<WithZeroIndexedRange<SQLite3TokenView>>, i: int, from: ZeroIndexedLocation) -> Option<
    CodeLensKind,
>
    decreases ts.len() - i,
{
    if i < 0 || i >= ts.len() {
        None
    } else if loc_le(from, ts[i].range.start) && ts[i].value is Keyword && keyword_kind(
        ts[i].value->Keyword_0,
    ) is Some {
        keyword_kind(ts[i].value->Keyword_0)
    } else {
        kind_from(ts, i + 1, from)
    }
}

/// The lenses of one statement: one per entry of its `WITH` clause, then
/// one for the statement itself if its kind is known.
#[verifier::opaque]
pub open spec fn statement_lenses(lines: Seq<Seq<char>>, stmt: SingleStatementView) -> Option<Seq<CodeLensView>> {
    if stmt.real_tokens.len() == 0 {
        Some(seq![])
    } else {
        let (cte_part, cte_end) = match cte_of(stmt) {
            None => (Some(Seq::<CodeLensView>::empty()), ZeroIndexedLocation { line: 0, column: 0 }),
            Some(c) => (entry_lenses(lines, stmt, c, c.entries.len()), c.body_range.start),
        };
        match cte_part {
            None => None,
            Some(cl) => match placeholders_of(stmt) {
                None => None,
                Some(ph) => match kind_from(stmt.real_tokens, 0, cte_end) {
                    None => Some(cl),
                    Some(kind) => Some(
                        cl.push(
                            CodeLensView {
                                kind,
                                range: stmt.real_text.range,
                                stmt_executed: stmt.real_text.value,
                                cte_identifier: None,
                                placeholders: ph,
                                table_to_be_shown: table_to_be_modified(stmt.real_tokens),
                            },
                        ),
                    ),
                },
            },
        }
    }
}

/// The lenses of the first `n` statements.
pub open spec fn lenses_of_statements(lines: Seq<Seq<char>>, ss: Seq<SingleStatementView>, n: nat) -> Option<
    Seq<CodeLensView>,
>
    decreases n,
{
    if n == 0 || n > ss.len() {
        Some(seq![])
    } else {
        match lenses_of_statements(lines, ss, (n - 1) as nat) {
            None => None,
            Some(acc) => match statement_lenses(lines, ss[n - 1]) {
                None => None,
                Some(l) => Some(acc + l),
            },
        }
    }
}

/// The code lenses of `sql`: none if it does not split; `None` where a
/// range does not fit the text or a `?NNN` placeholder cannot be read.
pub open spec fn code_lens_spec(sql: Seq<char>) -> Option<Seq<CodeLensView>> {
    match split_result(sql) {
        Err(_) => Some(seq![]),
        Ok((ss, _)) => lenses_of_statements(lines_of(sql), ss, ss.len()),
    }
}

/// `s` ends with `t`.
pub open spec fn ends_with(s: Seq<char>, t: Seq<char>) -> bool {
    t.len() <= s.len() && s.subrange(s.len() - t.len(), s.len() as int) == t
}

/// A lens that a statement among `ss` gives: one for a common table
/// expression shows its rows by a statement that ends with `SELECT * FROM`
/// and the quoted name; one for a statement itself covers the statement's
/// real text, runs that text, and shows the table that it modifies.
pub open spec fn lens_from_statements(ss: Seq<SingleStatementView>, l: CodeLensView) -> bool {
    match l.cte_identifier {
        Some(id) => {
            &&& l.kind == CodeLensKind::Select
            &&& l.table_to_be_shown is None
            &&& ends_with(l.stmt_executed, select_from_text() + id)
        },
        None => exists|k: int|
            {
                &&& 0 <= k < ss.len()
                &&& (#[trigger] ss[k]).real_tokens.len() > 0
                &&& l.range == ss[k].real_text.range
                &&& l.stmt_executed == ss[k].real_text.value
                &&& l.table_to_be_shown == table_to_be_modified(ss[k].real_tokens)
            },
    }
}

proof fn lemma_entry_lenses_from(
    lines: Seq<Seq<char>>,
    ss: Seq<SingleStatementView>,
    stmt: SingleStatementView,
    cte: CommonTableExpressionView,
    n: nat,
)
    ensures
        entry_lenses(lines, stmt, cte, n) matches Some(acc) ==> forall|i: int|
            0 <= i < acc.len() ==> (#[trigger] acc[i]).cte_identifier is Some && lens_from_statements(ss, acc[i]),
    decreases n,
{
    if n > 0 && n <= cte.entries.len() {
        lemma_entry_lenses_from(lines, ss, stmt, cte, (n - 1) as nat);
        let e = cte.entries[n - 1];
        let wr = ZeroIndexedRange { start: stmt.real_text.range.start, end: cte.body_range.start };
        if range_fits(lines, wr) && range_fits(lines, e.ident.range) {
            let ident = escaped_identifier(range_text(lines, e.ident.range));
            let w = range_text(lines, wr);
            let executed = cte_select(w, ident);
            let tail = select_from_text() + ident;
            assert(executed.subrange(executed.len() - tail.len(), executed.len() as int) =~= tail);
        }
    }
}

proof fn lemma_statement_lenses_from(lines: Seq<Seq<char>>, ss: Seq<SingleStatementView>, k: int)
    requires
        0 <= k < ss.len(),
    ensures
        statement_lenses(lines, ss[k]) matches Some(ls) ==> forall|i: int|
            0 <= i < ls.len() ==> lens_from_statements(ss, #[trigger] ls[i]),
{
    reveal(statement_lenses);
    let stmt = ss[k];
    if stmt.real_tokens.len() > 0 {
        if let Some(c) = cte_of(stmt) {
            lemma_entry_lenses_from(lines, ss, stmt, c, c.entries.len());
        }
        if let Some(ls) = statement_lenses(lines, stmt) {
            assert forall|i: int| 0 <= i < ls.len() implies lens_from_statements(ss, #[trigger] ls[i]) by {
                if ls[i].cte_identifier is None {
                    assert(ss[k] == stmt);
                }
            }
        }
    }
}

proof fn lemma_lenses_of_statements_from(lines: Seq<Seq<char>>, ss: Seq<SingleStatementView>, n: nat)
    ensures
        lenses_of_statements(lines, ss, n) matches Some(acc) ==> forall|i: int|
            0 <= i < acc.len() ==> lens_from_statements(ss, #[trigger] acc[i]),
    decreases n,
{
    if n > 0 && n <= ss.len() {
        lemma_lenses_of_statements_from(lines, ss, (n - 1) as nat);
        lemma_statement_lenses_from(lines, ss, n - 1);
        if let Some(acc) = lenses_of_statements(lines, ss, (n - 1) as nat) {
            if let Some(l) = statement_lenses(lines, ss[n - 1]) {
                let all = acc + l;
                assert forall|i: int| 0 <= i < all.len() implies lens_from_statements(ss, #[trigger] all[i]) by {
                    if i < acc.len() {
                        assert(all[i] == acc[i]);
                    } else {
                        assert(all[i] == l[i - acc.len()]);
                    }
                }
            }
        }
    }
}

/// What the code lenses of a script are: none when it does not split into
/// statements; otherwise each lens either shows the rows of a common table
/// expression (a `SELECT` that ends with `SELECT * FROM` and the quoted
/// name, with no table to show) or stands for one statement with real
/// tokens, covering its real text and running exactly that text.
pub proof fn law_code_lenses_come_from_statements(sql: Seq<char>)
    ensures
        split_result(sql) is Err ==> code_lens_spec(sql) == Some(Seq::<CodeLensView>::empty()),
        split_result(sql) matches Ok((ss, _)) ==> (code_lens_spec(sql) matches Some(ls) ==> forall|i: int|
            0 <= i < ls.len() ==> lens_from_statements(ss, #[trigger] ls[i])),
{
    if let Ok((ss, _)) = split_result(sql) {
        lemma_lenses_of_statements_from(lines_of(sql), ss, ss.len());
    }
}

/// The statement's lenses, where it gets any, are its own lens alone, of
/// kind `kind`, covering and running its real text.
pub open spec fn only_own_lens(lines: Seq<Seq<char>>, stmt: SingleStatementView, kind: CodeLensKind) -> bool {
    &&& (statement_lenses(lines, stmt) is Some) <==> (placeholders_of(stmt) is Some)
    &&& statement_lenses(lines, stmt) matches Some(ls) ==> {
        &&& ls.len() == 1
        &&& ls[0].kind == kind
        &&& ls[0].cte_identifier is None
        &&& ls[0].range == stmt.real_text.range
        &&& ls[0].stmt_executed == stmt.real_text.value
    }
}

/// The first keyword of a statement without a `WITH` clause decides what
/// running it does, whatever keywords follow: one that starts with
/// `SELECT` or `VALUES` is run as a query (`Select`), one that starts with
/// `EXPLAIN` is explained (`Explain`), and one that starts with `INSERT`,
/// `DELETE`, `UPDATE`, `REPLACE`, `DROP`, `CREATE`, `ALTER`, `ANALYZE`,
/// `BEGIN`, `VACUUM`, `ATTACH`, `DETACH`, `PRAGMA` or `REINDEX` is run for
/// its effect (`Other`). Such a statement gets lenses exactly when its
/// placeholders can be read, and then one: its own.
pub proof fn law_first_keyword_decides_kind(lines: Seq<Seq<char>>, stmt: SingleStatementView, k: SQLite3Keyword)
    requires
        stmt.real_tokens.len() > 0,
        stmt.real_tokens[0].value == SQLite3TokenView::Keyword(k),
        cte_of(stmt) is None,
    ensures
        k == SQLite3Keyword::SELECT || k == SQLite3Keyword::VALUES ==> only_own_lens(lines, stmt, CodeLensKind::Select),
        k == SQLite3Keyword::EXPLAIN ==> only_own_lens(lines, stmt, CodeLensKind::Explain),
        k == SQLite3Keyword::INSERT || k == SQLite3Keyword::DELETE || k == SQLite3Keyword::UPDATE || k
            == SQLite3Keyword::REPLACE || k == SQLite3Keyword::DROP || k == SQLite3Keyword::CREATE || k
            == SQLite3Keyword::ALTER || k == SQLite3Keyword::ANALYZE || k == SQLite3Keyword::BEGIN || k
            == SQLite3Keyword::VACUUM || k == SQLite3Keyword::ATTACH || k == SQLite3Keyword::DETACH || k
            == SQLite3Keyword::PRAGMA || k == SQLite3Keyword::REINDEX ==> only_own_lens(lines, stmt, CodeLensKind::Other),
{
    reveal(statement_lenses);
    let start = ZeroIndexedLocation { line: 0, column: 0 };
    assert(loc_le(start, stmt.real_tokens[0].range.start));
    assert(kind_from(stmt.real_tokens, 0, start) == if keyword_kind(k) is Some {
        keyword_kind(k)
    } else {
        kind_from(stmt.real_tokens, 1, start)
    });
}

proof fn lemma_kind_from_skips(ts: Seq<WithZeroIndexedRange<SQLite3TokenView>>, p: int, j: int, from: ZeroIndexedLocation)
    requires
        0 <= p <= j < ts.len(),
        forall|q: int| p <= q < j ==> loc_lt(#[trigger] ts[q].range.start, from),
    ensures
        kind_from(ts, p, from) == kind_from(ts, j, from),
    decreases j - p,
{
    if p < j {
        assert(loc_lt(ts[p].range.start, from));
        lemma_kind_from_skips(ts, p + 1, j, from);
    }
}

/// In a statement with a `WITH` clause, the keyword that starts the
/// statement after the clause (`SELECT`, `VALUES`, `INSERT`, `DELETE`,
/// `UPDATE`, `REPLACE`, `CREATE`, `ALTER` or `DROP`) decides what running
/// it does, not the queries of the clause: the statement's own lens comes
/// last, after those of the clause's entries, covers and runs its real
/// text, and is of kind `Select` where the body starts with `SELECT` or
/// `VALUES` and `Other` for the others.
pub proof fn law_body_keyword_decides_kind(
    lines: Seq<Seq<char>>,
    stmt: SingleStatementView,
    j: int,
    k: SQLite3Keyword,
)
    requires
        cte_of(stmt) is Some,
        0 <= j < stmt.real_tokens.len(),
        stmt.real_tokens[j].range.start == cte_of(stmt)->0.body_range.start,
        stmt.real_tokens[j].value == SQLite3TokenView::Keyword(k),
        k == SQLite3Keyword::SELECT || k == SQLite3Keyword::VALUES || k == SQLite3Keyword::INSERT || k
            == SQLite3Keyword::DELETE || k == SQLite3Keyword::UPDATE || k == SQLite3Keyword::REPLACE || k
            == SQLite3Keyword::CREATE || k == SQLite3Keyword::ALTER || k == SQLite3Keyword::DROP,
        forall|p: int| 0 <= p < j ==> loc_lt(#[trigger] stmt.real_tokens[p].range.start, stmt.real_tokens[j].range.start),
    ensures
        statement_lenses(lines, stmt) matches Some(ls) ==> {
            &&& ls.len() >= 1
            &&& ls.last().cte_identifier is None
            &&& ls.last().range == stmt.real_text.range
            &&& ls.last().stmt_executed == stmt.real_text.value
            &&& k == SQLite3Keyword::SELECT || k == SQLite3Keyword::VALUES ==> ls.last().kind == CodeLensKind::Select
            &&& k == SQLite3Keyword::INSERT || k == SQLite3Keyword::DELETE || k == SQLite3Keyword::UPDATE || k
                == SQLite3Keyword::REPLACE || k == SQLite3Keyword::CREATE || k == SQLite3Keyword::ALTER || k
                == SQLite3Keyword::DROP ==> ls.last().kind == CodeLensKind::Other
        },
{
    reveal(statement_lenses);
    let ts = stmt.real_tokens;
    let from = cte_of(stmt)->0.body_range.start;
    lemma_kind_from_skips(ts, 0, j, from);
    assert(kind_from(ts, j, from) == keyword_kind(k));
}

// ---------------------------------------------------------------------------
// Implementation
// ---------------------------------------------------------------------------

/// The statement that shows the rows of a common table expression.
fn build_cte_select(with_clause: &String, ident: &String) -> (r: String)
    ensures
        r@ == cte_select(with_clause@, ident@),
{
    let w = str_chars(with_clause.as_str());
    let mut out: Vec<char> = Vec::new();
    crate::text::append_chars(&mut out, &w);
    if !(w.len() > 0 && w[w.len() - 1] == ' ') {
        out.push(' ');
    }
    let sel: Vec<char> = vec!['S', 'E', 'L', 'E', 'C', 'T', ' ', '*', ' ', 'F', 'R', 'O', 'M', ' '];
    crate::text::append_chars(&mut out, &sel);
    let id = str_chars(ident.as_str());
    crate::text::append_chars(&mut out, &id);
    proof {
        assert(sel@ =~= select_from_text());
        assert(out@ =~= cte_select(with_clause@, ident@));
    }
    string_from_chars(&out)
}

/// The lens of one entry of a `WITH` clause (see [`entry_lens`]).
fn lens_of_entry(
    lines: &Vec<&str>,
    stmt: &SingleStatement,
    body_start: ZeroIndexedLocation,
    ident_range: ZeroIndexedRange,
    Ghost(cte): Ghost<CommonTableExpressionView>,
    Ghost(e): Ghost<CTEEntryView>,
) -> (r: Option<Option<CodeLens>>)
    requires
        cte.body_range.start == body_start,
        e.ident.range == ident_range,
    ensures
        match entry_lens(str_views(lines@), stmt@, cte, e) {
            None => r is None,
            Some(None) => r == Some(None::<CodeLens>),
            Some(Some(l)) => r is Some && r->0 is Some && r->0->0@ == l,
        },
{
    let wr = ZeroIndexedRange { start: stmt.real_text.range.start, end: body_start };
    if !wr.fits(lines.as_slice()) || !ident_range.fits(lines.as_slice()) {
        return None;
    }
    let with_clause = wr.get_text(lines.as_slice());
    let ident = escape_sql_identifier(ident_range.get_text(lines.as_slice()).as_str());
    let executed = build_cte_select(&with_clause, &ident);
    match split_sqlite_statements(executed.as_str()) {
        Err(_) => Some(None),
        Ok((ss, _)) => {
            if ss.len() == 0 {
                return Some(None);
            }
            proof {
                assert(statement_views(ss@)[0] == ss@[0]@);
            }
            match try_list_placeholders(&ss[0]) {
                None => None,
                Some(ph) => Some(
                    Some(
                        CodeLens {
                            kind: CodeLensKind::Select,
                            range: ident_range,
                            stmt_executed: executed,
                            cte_identifier: Some(ident),
                            placeholders: ph,
                            table_to_be_shown: None,
                        },
                    ),
                ),
            }
        },
    }
}

/// The kind of the first real token of `stmt` that starts at or after
/// `from` and is a keyword with a kind.
fn kind_of_statement(stmt: &SingleStatement, from: ZeroIndexedLocation) -> (r: Option<CodeLensKind>)
    ensures
        r == kind_from(stmt@.real_tokens, 0, from),
{
    let ghost ts = stmt@.real_tokens;
    let mut i: usize = 0;
    while i < stmt.real_tokens.len()
        invariant
            i <= stmt.real_tokens@.len(),
            ts == stmt@.real_tokens,
            ts == token_views(stmt.real_tokens@),
            kind_from(ts, i as int, from) == kind_from(ts, 0, from),
        decreases stmt.real_tokens@.len() - i,
    {
        let t = &stmt.real_tokens[i];
        proof {
            assert(ts[i as int] == t@);
        }
        if from.le(&t.range.start) {
            match t.value {
                SQLite3Token::Keyword(k) => {
                    let kind = if k == SQLite3Keyword::SELECT || k == SQLite3Keyword::VALUES {
                        Some(CodeLensKind::Select)
                    } else if k == SQLite3Keyword::EXPLAIN {
                        Some(CodeLensKind::Explain)
                    } else if k == SQLite3Keyword::INSERT || k == SQLite3Keyword::DELETE || k
                        == SQLite3Keyword::UPDATE || k == SQLite3Keyword::REPLACE || k
                        == SQLite3Keyword::DROP || k == SQLite3Keyword::CREATE || k
                        == SQLite3Keyword::ALTER || k == SQLite3Keyword::ANALYZE || k
                        == SQLite3Keyword::BEGIN || k == SQLite3Keyword::VACUUM || k
                        == SQLite3Keyword::ATTACH || k == SQLite3Keyword::DETACH || k
                        == SQLite3Keyword::PRAGMA || k == SQLite3Keyword::REINDEX {
                        Some(CodeLensKind::Other)
                    } else {
                        None
                    };
                    if kind.is_some() {
                        return kind;
                    }
                },
                _ => {},
            }
        }
        i = i + 1;
    }
    None
}

/// The lenses of one statement (see [`statement_lenses`]).
fn lenses_of_statement(lines: &Vec<&str>, stmt: &SingleStatement) -> (r: Option<Vec<CodeLens>>)
    ensures
        match statement_lenses(str_views(lines@), stmt@) {
            None => r is None,
            Some(v) => r is Some && lens_views(r->0@) == v,
        },
{
    let ghost lv = str_views(lines@);
    let mut out: Vec<CodeLens> = Vec::new();
    proof {
        assert(lens_views(out@) =~= seq![]);
        reveal(statement_lenses);
    }
    if stmt.real_tokens.len() == 0 {
        return Some(out);
    }
    let cte = parse_cte(stmt);
    let mut cte_end = ZeroIndexedLocation { line: 0, column: 0 };
    match cte {
        Some(c) => {
            let ghost cv = c@;
            let mut k: usize = 0;
            while k < c.entries.len()
                invariant
                    k <= c.entries@.len(),
                    cv == c@,
                    cte_of(stmt@) == Some(cv),
                    stmt@.real_tokens.len() > 0,
                    lv == str_views(lines@),
                    entry_lenses(lv, stmt@, cv, k as nat) == Some(lens_views(out@)),
                decreases c.entries@.len() - k,
            {
                let e = &c.entries[k];
                proof {
                    assert(cv.entries[k as int] == e@);
                }
                let ghost ev = e@;
                let ghost prev = lens_views(out@);
                proof {
                    assert(entry_lenses(lv, stmt@, cv, (k + 1) as nat) == match entry_lens(lv, stmt@, cv, ev) {
                        None => None,
                        Some(None) => Some(prev),
                        Some(Some(l)) => Some(prev.push(l)),
                    });
                }
                match lens_of_entry(lines, stmt, c.body_range.start, e.ident.range, Ghost(cv), Ghost(ev)) {
                    None => {
                        proof {
                            lemma_entry_lenses_none(lv, stmt@, cv, (k + 1) as nat, cv.entries.len());
                            reveal(statement_lenses);
                        }
                        return None;
                    },
                    Some(None) => {},
                    Some(Some(l)) => {
                        let ghost before = lens_views(out@);
                        out.push(l);
                        proof {
                            assert(lens_views(out@) =~= before.push(l@));
                        }
                    },
                }
                k = k + 1;
            }
            cte_end = c.body_range.start;
        },
        None => {},
    }
    let placeholders = match try_list_placeholders(stmt) {
        Some(p) => p,
        None => {
            return None;
        },
    };
    match kind_of_statement(stmt, cte_end) {
        None => Some(out),
        Some(kind) => {
            let lens = CodeLens {
                kind,
                range: stmt.real_text.range,
                stmt_executed: stmt.real_text.value.clone(),
                cte_identifier: None,
                placeholders,
                table_to_be_shown: get_table_to_be_modified(stmt.real_tokens.as_slice()),
            };
            let ghost before = lens_views(out@);
            out.push(lens);
            proof {
                assert(lens_views(out@) =~= before.push(lens@));
            }
            Some(out)
        },
    }
}

proof fn lemma_entry_lenses_none(
    lines: Seq<Seq<char>>,
    stmt: SingleStatementView,
    cte: CommonTableExpressionView,
    i: nat,
    n: nat,
)
    requires
        i <= n <= cte.entries.len(),
        entry_lenses(lines, stmt, cte, i) is None,
    ensures
        entry_lenses(lines, stmt, cte, n) is None,
    decreases n - i,
{
    if i < n {
        lemma_entry_lenses_none(lines, stmt, cte, i, (n - 1) as nat);
    }
}

proof fn lemma_statement_lenses_none(lines: Seq<Seq<char>>, ss: Seq<SingleStatementView>, i: nat, n: nat)
    requires
        i <= n <= ss.len(),
        lenses_of_statements(lines, ss, i) is None,
    ensures
        lenses_of_statements(lines, ss, n) is None,
    decreases n - i,
{
    if i < n {
        lemma_statement_lenses_none(lines, ss, i, (n - 1) as nat);
    }
}

/// The code lenses of `sql`; `None` where a range does not fit the text or
/// a `?NNN` placeholder cannot be read (`?0`).
pub fn try_code_lens(sql: &str) -> (r: Option<Vec<CodeLens>>)
    ensures
        match code_lens_spec(sql@) {
            None => r is None,
            Some(v) => r is Some && lens_views(r->0@) == v,
        },
{
    let lines = text_lines(sql);
    let mut out: Vec<CodeLens> = Vec::new();
    proof {
        assert(lens_views(out@) =~= seq![]);
    }
    let stmts = match split_sqlite_statements(sql) {
        Ok((s, _)) => s,
        Err(_) => {
            return Some(out);
        },
    };
    let ghost ss = statement_views(stmts@);
    let ghost lv = str_views(lines@);
    proof {
        assert(code_lens_spec(sql@) == lenses_of_statements(lv, ss, ss.len()));
    }
    let mut i: usize = 0;
    while i < stmts.len()
        invariant
            i <= stmts@.len(),
            ss == statement_views(stmts@),
            lv == str_views(lines@),
            code_lens_spec(sql@) == lenses_of_statements(lv, ss, ss.len()),
            lenses_of_statements(lv, ss, i as nat) == Some(lens_views(out@)),
        decreases stmts@.len() - i,
    {
        proof {
            assert(ss[i as int] == stmts@[i as int]@);
        }
        let ghost prev = lens_views(out@);
        let r = lenses_of_statement(&lines, &stmts[i]);
        proof {
            assert(lenses_of_statements(lv, ss, (i + 1) as nat) == match statement_lenses(lv, ss[i as int]) {
                None => None,
                Some(l) => Some(prev + l),
            });
        }
        match r {
            None => {
                proof {
                    lemma_statement_lenses_none(lv, ss, (i + 1) as nat, ss.len());
                }
                return None;
            },
            Some(ls) => {
                let ghost before = out@;
                let ghost lsv = ls@;
                let mut ls = ls;
                out.append(&mut ls);
                proof {
                    assert(out@ == before + lsv);
                    assert(lens_views(out@) =~= lens_views(before) + lens_views(lsv));
                }
            },
        }
        i = i + 1;
    }
    Some(out)
}

/// The code lenses of `sql`: for each statement, one lens per entry of
/// its `WITH` clause that shows the entry's rows, then one for the
/// statement itself when it starts with a keyword that runs something.
/// A script that does not tokenize has no lenses.
pub fn code_lens(sql: &str) -> (r: Vec<CodeLens>)
    requires
        code_lens_spec(sql@) is Some,
    ensures
        code_lens_spec(sql@) == Some(lens_views(r@)),
{
    match try_code_lens(sql) {
        Some(v) => v,
        None => Vec::new(),
    }
}

} // verus!
