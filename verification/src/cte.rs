//! The common table expressions of a `WITH` clause.
use vstd::prelude::*;

use crate::location::{ZeroIndexedLocation, loc_le};
use crate::range::{WithZeroIndexedRange, ZeroIndexedRange};
use crate::scanner::{
    SQLite3ParenAwareTokenScanner, SQLite3TokenScannerOutput, ScanOutputView, initial_state, item_first,
    item_last, item_located, items_in_order, law_walk_from_left_in_text_order, output_views, scan_all,
};
use crate::split_statements::{
    SingleStatement, SingleStatementView, law_statement_tokens_in_order, split_result, tokens_ordered,
};
use crate::token::{SQLite3Keyword, SQLite3Token, SQLite3TokenView};
use crate::tokenize::token_views;

verus! {

/// A named subquery of a `WITH` clause: its name and the range of its query.
#[derive(Clone, Debug, Eq, PartialEq)]
pub struct CTEEntry {
    pub ident: WithZeroIndexedRange<String>,
    pub query_range: ZeroIndexedRange,
}

/// The entries of a `WITH` clause and the range of the statement after it.
#[derive(Clone, Debug, Eq, PartialEq)]
pub struct CommonTableExpression {
    pub entries: Vec<CTEEntry>,
    pub body_range: ZeroIndexedRange,
}

pub struct CTEEntryView {
    pub ident: WithZeroIndexedRange<Seq<char>>,
    pub query_range: ZeroIndexedRange,
}

pub struct CommonTableExpressionView {
    pub entries: Seq<CTEEntryView>,
    pub body_range: ZeroIndexedRange,
}

impl View for CTEEntry {
    type V = CTEEntryView;

    open spec fn view(&self) -> CTEEntryView {
        CTEEntryView { ident: self.ident@, query_range: self.query_range }
    }
}

pub open spec fn entry_views(v: Seq<CTEEntry>) -> Seq<CTEEntryView> {
    v.map_values(|e: CTEEntry| e@)
}

impl View for CommonTableExpression {
    type V = CommonTableExpressionView;

    open spec fn view(&self) -> CommonTableExpressionView {
        CommonTableExpressionView { entries: entry_views(self.entries@), body_range: self.body_range }
    }
}

pub open spec fn opt_entry_view(o: Option<CTEEntry>) -> Option<CTEEntryView> {
    match o {
        Some(c) => Some(c@),
        None => None,
    }
}

// ---------------------------------------------------------------------------
// Specification
// ---------------------------------------------------------------------------

/// The keywords that a statement after a `WITH` clause starts with.
pub open spec fn ends_with_clause(k: SQLite3Keyword) -> bool {
    ||| k == SQLite3Keyword::SELECT
    ||| k == SQLite3Keyword::INSERT
    ||| k == SQLite3Keyword::DELETE
    ||| k == SQLite3Keyword::UPDATE
    ||| k == SQLite3Keyword::REPLACE
    ||| k == SQLite3Keyword::VALUES
    ||| k == SQLite3Keyword::CREATE
    ||| k == SQLite3Keyword::ALTER
    ||| k == SQLite3Keyword::DROP
}

/// The name before an `AS`: among the items `0..n`, the last single token,
/// if it is an identifier.
pub open spec fn last_ident(g: Seq<ScanOutputView>, n: int) -> Option<WithZeroIndexedRange<Seq<char>>>
    decreases n,
{
    if n <= 0 {
        None
    } else {
        match g[n - 1] {
            ScanOutputView::SingleToken(t) => match t.value {
                SQLite3TokenView::Identifier(w, _) => Some(WithZeroIndexedRange { value: w, range: t.range }),
                _ => None,
            },
            _ => last_ident(g, n - 1),
        }
    }
}

/// The entries found so far and the entry whose query comes next, after
/// item `i` of `g`.
pub open spec fn cte_step(
    g: Seq<ScanOutputView>,
    i: int,
    entries: Seq<CTEEntryView>,
    current: Option<CTEEntryView>,
) -> (Seq<CTEEntryView>, Option<CTEEntryView>) {
    match g[i] {
        ScanOutputView::Group(ts) => match current {
            Some(cur) => (
                if ts.len() > 0 {
                    entries.push(
                        CTEEntryView {
                            ident: cur.ident,
                            query_range: ZeroIndexedRange { start: ts[0].range.start, end: ts.last().range.end },
                        },
                    )
                } else {
                    entries
                },
                None,
            ),
            None => (entries, current),
        },
        ScanOutputView::SingleToken(t) => if t.value == SQLite3TokenView::Keyword(SQLite3Keyword::AS) {
            match last_ident(g, if i >= 1 { i - 1 } else { 0 }) {
                Some(id) => (
                    entries,
                    Some(CTEEntryView { ident: id, query_range: ZeroIndexedRange { start: t.range.end, end: t.range.end } }),
                ),
                None => (entries, current),
            }
        } else {
            (entries, current)
        },
        _ => (entries, current),
    }
}

/// The keyword token that starts the statement after the `WITH` clause.
pub open spec fn is_clause_end(o: ScanOutputView) -> bool {
    o matches ScanOutputView::SingleToken(t) && t.value matches SQLite3TokenView::Keyword(k)
        && ends_with_clause(k)
}

/// The CTE read from item `i` of `g` on.
pub open spec fn cte_from(
    g: Seq<ScanOutputView>,
    i: int,
    entries: Seq<CTEEntryView>,
    current: Option<CTEEntryView>,
    end: ZeroIndexedLocation,
) -> Option<CommonTableExpressionView>
    decreases g.len() - i,
{
    if i < 0 || i >= g.len() {
        None
    } else if is_clause_end(g[i]) {
        Some(
            CommonTableExpressionView {
                entries,
                body_range: ZeroIndexedRange { start: g[i]->SingleToken_0.range.start, end },
            },
        )
    } else {
        let (e2, c2) = cte_step(g, i, entries, current);
        cte_from(g, i + 1, e2, c2, end)
    }
}

/// The CTE of a statement: `None` unless its first real token is `WITH`
/// and a `SELECT`, `INSERT`, `DELETE`, `UPDATE`, `REPLACE`, `VALUES`,
/// `CREATE`, `ALTER` or `DROP` follows outside parentheses.
pub open spec fn cte_of(stmt: SingleStatementView) -> Option<CommonTableExpressionView> {
    if stmt.real_tokens.len() > 0 && stmt.real_tokens[0].value == SQLite3TokenView::Keyword(
        SQLite3Keyword::WITH,
    ) {
        cte_from(scan_all(initial_state(stmt.real_tokens)), 0, seq![], None, stmt.real_text.range.end)
    } else {
        None
    }
}

proof fn lemma_cte_from_end(
    g: Seq<ScanOutputView>,
    i: int,
    entries: Seq<CTEEntryView>,
    current: Option<CTEEntryView>,
    end: ZeroIndexedLocation,
)
    ensures
        cte_from(g, i, entries, current, end) matches Some(c) ==> c.body_range.end == end,
    decreases g.len() - i,
{
    if 0 <= i < g.len() && !is_clause_end(g[i]) {
        let (e2, c2) = cte_step(g, i, entries, current);
        lemma_cte_from_end(g, i + 1, e2, c2, end);
    }
}

/// Only a statement that starts with `WITH` has a CTE, and the body of a
/// CTE runs to the end of the statement's real text.
pub proof fn law_cte_body_reaches_end(stmt: SingleStatementView)
    ensures
        cte_of(stmt) matches Some(c) ==> {
            &&& stmt.real_tokens.len() > 0
            &&& stmt.real_tokens[0].value == SQLite3TokenView::Keyword(SQLite3Keyword::WITH)
            &&& c.body_range.end == stmt.real_text.range.end
        },
{
    lemma_cte_from_end(scan_all(initial_state(stmt.real_tokens)), 0, seq![], None, stmt.real_text.range.end);
}

proof fn lemma_cte_from_found(
    g: Seq<ScanOutputView>,
    i: int,
    entries: Seq<CTEEntryView>,
    current: Option<CTEEntryView>,
    end: ZeroIndexedLocation,
)
    requires
        0 <= i,
    ensures
        (cte_from(g, i, entries, current, end) is Some) <==> exists|j: int| i <= j < g.len() && #[trigger] is_clause_end(g[j]),
        cte_from(g, i, entries, current, end) matches Some(c) ==> exists|j: int|
            {
                &&& i <= j < g.len()
                &&& #[trigger] is_clause_end(g[j])
                &&& forall|k: int| i <= k < j ==> !is_clause_end(#[trigger] g[k])
                &&& c.body_range == ZeroIndexedRange { start: g[j]->SingleToken_0.range.start, end }
            },
    decreases g.len() - i,
{
    if i < g.len() && !is_clause_end(g[i]) {
        let (e2, c2) = cte_step(g, i, entries, current);
        lemma_cte_from_found(g, i + 1, e2, c2, end);
        if exists|j: int| i <= j < g.len() && #[trigger] is_clause_end(g[j]) {
            let j = choose|j: int| i <= j < g.len() && #[trigger] is_clause_end(g[j]);
            assert(i + 1 <= j);
        }
    } else if i < g.len() {
        let c = cte_from(g, i, entries, current, end)->0;
        assert(c.body_range == ZeroIndexedRange { start: g[i]->SingleToken_0.range.start, end });
    }
}

/// A statement has a CTE exactly when its first real token is `WITH` and a
/// keyword that starts the statement's body (see [`ends_with_clause`])
/// stands outside all parentheses; the body then runs from the first such
/// keyword to the end of the statement's real text.
pub proof fn law_cte_needs_a_body_keyword(stmt: SingleStatementView)
    ensures
        ({
            let g = scan_all(initial_state(stmt.real_tokens));
            &&& (cte_of(stmt) is Some) <==> {
                &&& stmt.real_tokens.len() > 0
                &&& stmt.real_tokens[0].value == SQLite3TokenView::Keyword(SQLite3Keyword::WITH)
                &&& exists|j: int| 0 <= j < g.len() && #[trigger] is_clause_end(g[j])
            }
            &&& cte_of(stmt) matches Some(c) ==> exists|j: int|
                {
                    &&& 0 <= j < g.len()
                    &&& #[trigger] is_clause_end(g[j])
                    &&& forall|k: int| 0 <= k < j ==> !is_clause_end(#[trigger] g[k])
                    &&& c.body_range == ZeroIndexedRange {
                        start: g[j]->SingleToken_0.range.start,
                        end: stmt.real_text.range.end,
                    }
                }
        }),
{
    lemma_cte_from_found(scan_all(initial_state(stmt.real_tokens)), 0, seq![], None, stmt.real_text.range.end);
}

/// A `WITH` clause stands in front of a `SELECT`, `INSERT`, `DELETE` or
/// `UPDATE` statement, and is read in front of `REPLACE`, `VALUES`,
/// `CREATE`, `ALTER` and `DROP` too: a statement that starts with `WITH`
/// and has one of these keywords outside all parentheses has a CTE; where
/// no keyword that starts a body stands before it, the body starts at that
/// keyword and runs to the end of the statement's real text.
pub proof fn law_with_clause_before_statement(stmt: SingleStatementView, j: int)
    requires
        stmt.real_tokens.len() > 0,
        stmt.real_tokens[0].value == SQLite3TokenView::Keyword(SQLite3Keyword::WITH),
        0 <= j < scan_all(initial_state(stmt.real_tokens)).len(),
        scan_all(initial_state(stmt.real_tokens))[j] matches ScanOutputView::SingleToken(t) && (t.value == SQLite3TokenView::Keyword(SQLite3Keyword::SELECT) || t.value == SQLite3TokenView::Keyword(SQLite3Keyword::INSERT) || t.value == SQLite3TokenView::Keyword(SQLite3Keyword::DELETE) || t.value == SQLite3TokenView::Keyword(SQLite3Keyword::UPDATE) || t.value == SQLite3TokenView::Keyword(SQLite3Keyword::REPLACE) || t.value == SQLite3TokenView::Keyword(SQLite3Keyword::VALUES) || t.value == SQLite3TokenView::Keyword(SQLite3Keyword::CREATE) || t.value == SQLite3TokenView::Keyword(SQLite3Keyword::ALTER) || t.value == SQLite3TokenView::Keyword(SQLite3Keyword::DROP)),
    ensures
        cte_of(stmt) is Some,
        (forall|m: int| 0 <= m < j ==> !is_clause_end(#[trigger] scan_all(initial_state(stmt.real_tokens))[m]))
            ==> cte_of(stmt)->0.body_range == (ZeroIndexedRange {
            start: scan_all(initial_state(stmt.real_tokens))[j]->SingleToken_0.range.start,
            end: stmt.real_text.range.end,
        }),
{
    let g = scan_all(initial_state(stmt.real_tokens));
    assert(is_clause_end(g[j]));
    law_cte_needs_a_body_keyword(stmt);
    if forall|m: int| 0 <= m < j ==> !is_clause_end(#[trigger] g[m]) {
        let c = cte_of(stmt)->0;
        let jj = choose|jj: int|
            {
                &&& 0 <= jj < g.len()
                &&& #[trigger] is_clause_end(g[jj])
                &&& forall|k: int| 0 <= k < jj ==> !is_clause_end(#[trigger] g[k])
                &&& c.body_range == ZeroIndexedRange { start: g[jj]->SingleToken_0.range.start, end: stmt.real_text.range.end }
            };
        if jj < j {
            assert(!is_clause_end(g[jj]));
        } else if jj > j {
            assert(!is_clause_end(g[j]));
        }
    }
}

/// The entries found so far, and the one whose query comes next, lie before
/// every located item from `i` on.
pub open spec fn entries_before(
    g: Seq<ScanOutputView>,
    i: int,
    entries: Seq<CTEEntryView>,
    current: Option<CTEEntryView>,
) -> bool {
    &&& forall|k: int|
        0 <= k < entries.len() ==> {
            &&& loc_le((#[trigger] entries[k]).ident.range.end, entries[k].query_range.start)
            &&& loc_le(entries[k].query_range.start, entries[k].query_range.end)
        }
    &&& forall|k: int, k2: int|
        0 <= k < k2 < entries.len() ==> loc_le(
            (#[trigger] entries[k]).query_range.end,
            (#[trigger] entries[k2]).query_range.start,
        )
    &&& forall|k: int, q: int|
        0 <= k < entries.len() && i <= q < g.len() && item_located(#[trigger] g[q]) ==> loc_le(
            (#[trigger] entries[k]).query_range.end,
            item_first(g[q]),
        )
    &&& current matches Some(c) ==> forall|q: int|
        i <= q < g.len() && item_located(#[trigger] g[q]) ==> loc_le(c.ident.range.end, item_first(g[q]))
}

proof fn lemma_last_ident_item(g: Seq<ScanOutputView>, n: int)
    ensures
        last_ident(g, n) matches Some(id) ==> exists|p: int|
            0 <= p < n && item_located(#[trigger] g[p]) && item_last(g[p]) == id.range.end,
    decreases n,
{
    if n > 0 {
        match g[n - 1] {
            ScanOutputView::SingleToken(t) => {
                if last_ident(g, n) is Some {
                    assert(item_located(g[n - 1]));
                }
            },
            _ => {
                lemma_last_ident_item(g, n - 1);
            },
        }
    }
}

proof fn lemma_cte_from_order(
    g: Seq<ScanOutputView>,
    i: int,
    entries: Seq<CTEEntryView>,
    current: Option<CTEEntryView>,
    end: ZeroIndexedLocation,
)
    requires
        0 <= i,
        items_in_order(g),
        forall|p: int| 0 <= p < g.len() && item_located(#[trigger] g[p]) ==> loc_le(item_first(g[p]), item_last(g[p])),
        entries_before(g, i, entries, current),
    ensures
        cte_from(g, i, entries, current, end) matches Some(c) ==> {
            &&& forall|k: int|
                0 <= k < c.entries.len() ==> {
                    &&& loc_le((#[trigger] c.entries[k]).ident.range.end, c.entries[k].query_range.start)
                    &&& loc_le(c.entries[k].query_range.start, c.entries[k].query_range.end)
                    &&& loc_le(c.entries[k].query_range.end, c.body_range.start)
                }
            &&& forall|k: int, k2: int|
                0 <= k < k2 < c.entries.len() ==> loc_le(
                    (#[trigger] c.entries[k]).query_range.end,
                    (#[trigger] c.entries[k2]).query_range.start,
                )
        },
    decreases g.len() - i,
{
    if i < g.len() {
        if is_clause_end(g[i]) {
            assert(item_located(g[i]));
            assert(item_first(g[i]) == g[i]->SingleToken_0.range.start);
        } else {
            let (e2, c2) = cte_step(g, i, entries, current);
            match g[i] {
                ScanOutputView::Group(ts) => {
                    if current is Some && ts.len() > 0 {
                        let cur = current->0;
                        let e = e2.last();
                        assert(e2 == entries.push(e));
                        assert(item_located(g[i]));
                        assert(e.query_range.start == item_first(g[i]));
                        assert(e.query_range.end == item_last(g[i]));
                        assert forall|k: int, q: int|
                            0 <= k < e2.len() && i + 1 <= q < g.len() && item_located(#[trigger] g[q]) implies loc_le(
                                (#[trigger] e2[k]).query_range.end,
                                item_first(g[q]),
                            ) by {
                            if k < entries.len() {
                                assert(e2[k] == entries[k]);
                            }
                        }
                        assert forall|k: int, k2: int| 0 <= k < k2 < e2.len() implies loc_le(
                            (#[trigger] e2[k]).query_range.end,
                            (#[trigger] e2[k2]).query_range.start,
                        ) by {
                            assert(e2[k] == entries[k]);
                            if k2 < entries.len() {
                                assert(e2[k2] == entries[k2]);
                            }
                        }
                        assert forall|k: int| 0 <= k < e2.len() implies {
                            &&& loc_le((#[trigger] e2[k]).ident.range.end, e2[k].query_range.start)
                            &&& loc_le(e2[k].query_range.start, e2[k].query_range.end)
                        } by {
                            if k < entries.len() {
                                assert(e2[k] == entries[k]);
                            }
                        }
                    }
                    assert(entries_before(g, i + 1, e2, c2));
                },
                ScanOutputView::SingleToken(t) => {
                    let n = if i >= 1 {
                        i - 1
                    } else {
                        0
                    };
                    lemma_last_ident_item(g, n);
                    assert(entries_before(g, i + 1, e2, c2));
                },
                _ => {
                    assert(entries_before(g, i + 1, e2, c2));
                },
            }
            lemma_cte_from_order(g, i + 1, e2, c2, end);
        }
    }
}

/// The entries of a statement's CTE come in the order of the text: each
/// entry's name ends before its query starts, its query ends before the
/// next entry's query starts, and every query ends before the body of the
/// statement starts.
pub open spec fn cte_entries_ordered(stmt: SingleStatementView) -> bool {
    cte_of(stmt) matches Some(c) ==> {
        &&& forall|k: int|
            0 <= k < c.entries.len() ==> {
                &&& loc_le((#[trigger] c.entries[k]).ident.range.end, c.entries[k].query_range.start)
                &&& loc_le(c.entries[k].query_range.start, c.entries[k].query_range.end)
                &&& loc_le(c.entries[k].query_range.end, c.body_range.start)
            }
        &&& forall|k: int, k2: int|
            0 <= k < k2 < c.entries.len() ==> loc_le(
                (#[trigger] c.entries[k]).query_range.end,
                (#[trigger] c.entries[k2]).query_range.start,
            )
    }
}

/// Over tokens that come one after another, the entries of a CTE come in
/// the order of the text (see [`cte_entries_ordered`]).
pub proof fn law_cte_entries_in_order(stmt: SingleStatementView)
    requires
        tokens_ordered(stmt.real_tokens),
    ensures
        cte_entries_ordered(stmt),
{
    let g = scan_all(initial_state(stmt.real_tokens));
    law_walk_from_left_in_text_order(stmt.real_tokens);
    assert(entries_before(g, 0, seq![], None));
    lemma_cte_from_order(g, 0, seq![], None, stmt.real_text.range.end);
}

/// In every statement of a script, the entries of the CTE come in the
/// order of the text (see [`cte_entries_ordered`]).
pub proof fn law_cte_entries_in_order_in_scripts(sql: Seq<char>)
    ensures
        split_result(sql) matches Ok((ss, _)) ==> forall|k: int|
            0 <= k < ss.len() ==> cte_entries_ordered(#[trigger] ss[k]),
{
    law_statement_tokens_in_order(sql);
    if let Ok((ss, _)) = split_result(sql) {
        assert forall|k: int| 0 <= k < ss.len() implies cte_entries_ordered(#[trigger] ss[k]) by {
            law_cte_entries_in_order(ss[k]);
        }
    }
}

// ---------------------------------------------------------------------------
// Implementation
// ---------------------------------------------------------------------------

fn find_last_ident(grouped: &Vec<SQLite3TokenScannerOutput>, n: usize) -> (r: Option<
    WithZeroIndexedRange<String>,
>)
    requires
        n <= grouped@.len(),
    ensures
        r matches Some(id) ==> last_ident(output_views(grouped@), n as int) == Some(id@),
        r is None ==> last_ident(output_views(grouped@), n as int) is None,
{
    let ghost g = output_views(grouped@);
    let mut j = n;
    while j > 0
        invariant
            j <= n <= grouped@.len(),
            g == output_views(grouped@),
            last_ident(g, n as int) == last_ident(g, j as int),
        decreases j,
    {
        proof {
            assert(g[j - 1] == grouped@[j - 1]@);
        }
        match &grouped[j - 1] {
            SQLite3TokenScannerOutput::SingleToken(t) => {
                match &t.value {
                    SQLite3Token::Identifier(w, _) => {
                        return Some(WithZeroIndexedRange { value: w.clone(), range: t.range });
                    },
                    _ => {
                        return None;
                    },
                }
            },
            _ => {},
        }
        j = j - 1;
    }
    None
}

/// Parses the `WITH` clause at the start of `stmt`; `None` if the
/// statement has none.
pub fn parse_cte(stmt: &SingleStatement) -> (r: Option<CommonTableExpression>)
    ensures
        r matches Some(c) ==> cte_of(stmt@) == Some(c@),
        r is None ==> cte_of(stmt@) is None,
{
    if stmt.real_tokens.len() == 0 {
        return None;
    }
    if !matches!(stmt.real_tokens[0].value, SQLite3Token::Keyword(SQLite3Keyword::WITH)) {
        proof {
            assert(stmt@.real_tokens[0] == stmt.real_tokens@[0]@);
        }
        return None;
    }
    proof {
        assert(stmt@.real_tokens[0] == stmt.real_tokens@[0]@);
    }
    let scanner = SQLite3ParenAwareTokenScanner::new(stmt.real_tokens.as_slice());
    let grouped = scanner.collect();
    let ghost g = output_views(grouped@);
    let end = stmt.real_text.range.end;
    let mut entries: Vec<CTEEntry> = Vec::new();
    let mut current: Option<CTEEntry> = None;
    let mut i: usize = 0;
    proof {
        assert(entry_views(entries@) =~= seq![]);
    }
    while i < grouped.len()
        invariant
            i <= grouped@.len(),
            g == output_views(grouped@),
            g == scan_all(initial_state(stmt@.real_tokens)),
            end == stmt@.real_text.range.end,
            cte_of(stmt@) == cte_from(g, 0, seq![], None, end),
            cte_from(g, i as int, entry_views(entries@), opt_entry_view(current), end) == cte_from(
                g,
                0,
                seq![],
                None,
                end,
            ),
        decreases grouped@.len() - i,
    {
        let ghost cur_v = opt_entry_view(current);
        let ghost old_e = entry_views(entries@);
        proof {
            assert(g[i as int] == grouped@[i as int]@);
        }
        match &grouped[i] {
            SQLite3TokenScannerOutput::Group(tokens) => {
                if current.is_some() {
                    let cur = current.unwrap();
                    if tokens.len() > 0 {
                        let first = tokens[0];
                        let last = tokens[tokens.len() - 1];
                        let entry = CTEEntry {
                            ident: cur.ident,
                            query_range: ZeroIndexedRange { start: first.range.start, end: last.range.end },
                        };
                        let ghost old_entries = entry_views(entries@);
                        entries.push(entry);
                        proof {
                            assert(entry_views(entries@) =~= old_entries.push(entry@));
                        }
                    }
                    current = None;
                }
            },
            SQLite3TokenScannerOutput::SingleToken(t) => {
                match t.value {
                    SQLite3Token::Keyword(k) => {
                        if matches!(k, SQLite3Keyword::AS) {
                            let n = if i >= 1 { i - 1 } else { 0 };
                            match find_last_ident(&grouped, n) {
                                Some(id) => {
                                    current = Some(CTEEntry {
                                        ident: id,
                                        query_range: ZeroIndexedRange { start: t.range.end, end: t.range.end },
                                    });
                                },
                                None => {},
                            }
                        } else if matches!(k, SQLite3Keyword::SELECT | SQLite3Keyword::INSERT | SQLite3Keyword::DELETE | SQLite3Keyword::UPDATE | SQLite3Keyword::REPLACE | SQLite3Keyword::VALUES | SQLite3Keyword::CREATE | SQLite3Keyword::ALTER | SQLite3Keyword::DROP) {
                            proof {
                                assert(t.value@ == SQLite3TokenView::Keyword(k));
                                assert(ends_with_clause(k));
                                assert(is_clause_end(g[i as int]));
                                assert(g[i as int]->SingleToken_0 == t@);
                                assert(cte_from(g, i as int, entry_views(entries@), opt_entry_view(current), end) == Some(
                                    CommonTableExpressionView {
                                        entries: entry_views(entries@),
                                        body_range: ZeroIndexedRange { start: t.range.start, end },
                                    },
                                ));
                            }
                            let cte = CommonTableExpression {
                                entries,
                                body_range: ZeroIndexedRange { start: t.range.start, end },
                            };
                            return Some(cte);
                        }
                    },
                    _ => {},
                }
            },
            _ => {},
        }
        proof {
            assert(!is_clause_end(g[i as int]));
            assert((entry_views(entries@), opt_entry_view(current)) == cte_step(g, i as int, old_e, cur_v));
        }
        i = i + 1;
    }
    None
}

} // verus!
