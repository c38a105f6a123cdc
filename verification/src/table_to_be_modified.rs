//! The table that a statement creates, inserts into, updates or alters.
use vstd::prelude::*;

use crate::placeholders::opt_str_view;
use crate::range::WithZeroIndexedRange;
use crate::token::{SQLite3Keyword, SQLite3Token, SQLite3TokenView};
use crate::tokenize::token_views;

verus! {

/// A table, with its schema where the statement names one.
#[derive(Clone, Debug, Eq, PartialEq)]
pub struct TableToBeModified {
    pub schema: Option<String>,
    pub table: String,
}

/// The table that a code lens focuses on: the one the statement modifies.
pub type TableToBeFocused = TableToBeModified;

pub struct TableToBeModifiedView {
    pub schema: Option<Seq<char>>,
    pub table: Seq<char>,
}

impl View for TableToBeModified {
    type V = TableToBeModifiedView;

    open spec fn view(&self) -> TableToBeModifiedView {
        TableToBeModifiedView { schema: opt_str_view(self.schema), table: self.table@ }
    }
}

pub open spec fn opt_table_view(o: Option<TableToBeModified>) -> Option<TableToBeModifiedView> {
    match o {
        Some(t) => Some(t@),
        None => None,
    }
}

/// An item of a pattern of tokens.
#[derive(Clone, Copy, Debug, Eq, PartialEq, Structural)]
pub enum PatternItem {
    Keyword(SQLite3Keyword),
    WordAsSchema,
    Period,
    WordAsTable,
}

// ---------------------------------------------------------------------------
// The patterns
// ---------------------------------------------------------------------------

pub open spec fn kw(k: SQLite3Keyword) -> PatternItem {
    PatternItem::Keyword(k)
}

/// `p` followed by a table name, first as `schema.table`, then as `table`.
pub open spec fn then_table(p: Seq<PatternItem>) -> Seq<Seq<PatternItem>> {
    seq![
        p + seq![PatternItem::WordAsSchema, PatternItem::Period, PatternItem::WordAsTable],
        p + seq![PatternItem::WordAsTable],
    ]
}

/// The `OR ...` conflict clauses, each followed by `INTO` and a table.
pub open spec fn or_into_patterns() -> Seq<Seq<PatternItem>> {
    then_table(seq![kw(SQLite3Keyword::OR), kw(SQLite3Keyword::ABORT), kw(SQLite3Keyword::INTO)])
        + then_table(seq![kw(SQLite3Keyword::OR), kw(SQLite3Keyword::FAIL), kw(SQLite3Keyword::INTO)])
        + then_table(seq![kw(SQLite3Keyword::OR), kw(SQLite3Keyword::IGNORE), kw(SQLite3Keyword::INTO)])
        + then_table(seq![kw(SQLite3Keyword::OR), kw(SQLite3Keyword::REPLACE), kw(SQLite3Keyword::INTO)])
        + then_table(seq![kw(SQLite3Keyword::OR), kw(SQLite3Keyword::ROLLBACK), kw(SQLite3Keyword::INTO)])
}

/// The patterns tried, in order, after the keyword `k`.
pub open spec fn pattern_list(k: SQLite3Keyword) -> Seq<Seq<PatternItem>> {
    if k == SQLite3Keyword::CREATE {
        seq![
            seq![kw(SQLite3Keyword::TRIGGER)],
            seq![kw(SQLite3Keyword::TEMP), kw(SQLite3Keyword::TRIGGER)],
            seq![kw(SQLite3Keyword::TEMPORARY), kw(SQLite3Keyword::TRIGGER)],
        ] + then_table(seq![kw(SQLite3Keyword::TABLE)]) + then_table(
            seq![kw(SQLite3Keyword::TABLE), kw(SQLite3Keyword::IF), kw(SQLite3Keyword::NOT), kw(SQLite3Keyword::EXISTS)],
        ) + then_table(seq![kw(SQLite3Keyword::VIEW)]) + then_table(
            seq![kw(SQLite3Keyword::VIEW), kw(SQLite3Keyword::IF), kw(SQLite3Keyword::NOT), kw(SQLite3Keyword::EXISTS)],
        ) + then_table(seq![kw(SQLite3Keyword::VIRTUAL), kw(SQLite3Keyword::TABLE)]) + then_table(
            seq![
                kw(SQLite3Keyword::VIRTUAL),
                kw(SQLite3Keyword::TABLE),
                kw(SQLite3Keyword::IF),
                kw(SQLite3Keyword::NOT),
                kw(SQLite3Keyword::EXISTS),
            ],
        )
    } else if k == SQLite3Keyword::REPLACE {
        then_table(seq![kw(SQLite3Keyword::INTO)])
    } else if k == SQLite3Keyword::INSERT {
        then_table(seq![kw(SQLite3Keyword::INTO)]) + or_into_patterns()
    } else if k == SQLite3Keyword::UPDATE {
        then_table(seq![]) + or_into_patterns()
    } else if k == SQLite3Keyword::ALTER {
        then_table(seq![kw(SQLite3Keyword::TABLE)])
    } else {
        seq![]
    }
}

// ---------------------------------------------------------------------------
// Matching
// ---------------------------------------------------------------------------

/// Matching items `j..` of `pat` against the tokens `ts`, with the schema
/// and the table found so far: `None` if they do not match, `Some(None)`
/// if they match without a table (`CREATE TRIGGER`), `Some(Some(t))`
/// otherwise.
pub open spec fn match_from(
    ts: Seq<SQLite3TokenView>,
    pat: Seq<PatternItem>,
    j: int,
    schema: Option<Seq<char>>,
    table: Option<Seq<char>>,
) -> Option<Option<TableToBeModifiedView>>
    decreases pat.len() - j,
{
    if j < 0 || j >= pat.len() {
        Some(
            match table {
                Some(t) => Some(TableToBeModifiedView { schema, table: t }),
                None => None,
            },
        )
    } else {
        match pat[j] {
            PatternItem::Keyword(k) => if ts[j] == SQLite3TokenView::Keyword(k) {
                match_from(ts, pat, j + 1, schema, table)
            } else {
                None
            },
            PatternItem::Period => if ts[j] is Period {
                match_from(ts, pat, j + 1, schema, table)
            } else {
                None
            },
            PatternItem::WordAsSchema => match ts[j] {
                SQLite3TokenView::Identifier(s, _) => match_from(ts, pat, j + 1, Some(s), table),
                _ => None,
            },
            PatternItem::WordAsTable => match ts[j] {
                SQLite3TokenView::Identifier(s, _) => match_from(ts, pat, j + 1, schema, Some(s)),
                _ => None,
            },
        }
    }
}

pub open spec fn match_pattern_spec(ts: Seq<SQLite3TokenView>, pat: Seq<PatternItem>) -> Option<
    Option<TableToBeModifiedView>,
> {
    if pat.len() > ts.len() {
        None
    } else {
        match_from(ts, pat, 0, None, None)
    }
}

/// The values of the tokens that are not whitespace.
pub open spec fn non_whitespace(ts: Seq<WithZeroIndexedRange<SQLite3TokenView>>) -> Seq<SQLite3TokenView>
    decreases ts.len(),
{
    if ts.len() == 0 {
        seq![]
    } else if ts.last().value is Whitespace {
        non_whitespace(ts.drop_last())
    } else {
        non_whitespace(ts.drop_last()).push(ts.last().value)
    }
}

/// The first pattern from the `p`-th on, after the keyword at `i`, that
/// matches, and what it gives.
pub open spec fn try_patterns(nw: Seq<SQLite3TokenView>, i: int, pats: Seq<Seq<PatternItem>>, p: int) -> Option<
    Option<TableToBeModifiedView>,
>
    decreases pats.len() - p,
{
    if p < 0 || p >= pats.len() {
        None
    } else if i + pats[p].len() < nw.len() && match_pattern_spec(nw.skip(i + 1), pats[p]) is Some {
        match_pattern_spec(nw.skip(i + 1), pats[p])
    } else {
        try_patterns(nw, i, pats, p + 1)
    }
}

/// The result from the `i`-th token on that is not whitespace.
pub open spec fn table_from(nw: Seq<SQLite3TokenView>, i: int) -> Option<TableToBeModifiedView>
    decreases nw.len() - i,
{
    if i < 0 || i >= nw.len() {
        None
    } else {
        match nw[i] {
            SQLite3TokenView::Keyword(k) => match try_patterns(nw, i, pattern_list(k), 0) {
                Some(r) => r,
                None => table_from(nw, i + 1),
            },
            _ => table_from(nw, i + 1),
        }
    }
}

/// The table that a statement with tokens `ts` modifies.
pub open spec fn table_to_be_modified(ts: Seq<WithZeroIndexedRange<SQLite3TokenView>>) -> Option<
    TableToBeModifiedView,
> {
    table_from(non_whitespace(ts), 0)
}

/// Token `k` of `ts` is the identifier `v`.
pub open spec fn is_identifier(t: SQLite3TokenView, v: Seq<char>) -> bool {
    t matches SQLite3TokenView::Identifier(w, _) && w == v
}

proof fn lemma_match_from_table(
    ts: Seq<SQLite3TokenView>,
    pat: Seq<PatternItem>,
    j: int,
    schema: Option<Seq<char>>,
    table: Option<Seq<char>>,
    m: TableToBeModifiedView,
)
    requires
        0 <= j,
        pat.len() <= ts.len(),
        match_from(ts, pat, j, schema, table) == Some(Some(m)),
    ensures
        table == Some(m.table) || exists|k: int| j <= k < pat.len() && is_identifier(#[trigger] ts[k], m.table),
    decreases pat.len() - j,
{
    if j < pat.len() {
        match pat[j] {
            PatternItem::Keyword(k) => {
                lemma_match_from_table(ts, pat, j + 1, schema, table, m);
            },
            PatternItem::Period => {
                lemma_match_from_table(ts, pat, j + 1, schema, table, m);
            },
            PatternItem::WordAsSchema => {
                if let SQLite3TokenView::Identifier(s, _) = ts[j] {
                    lemma_match_from_table(ts, pat, j + 1, Some(s), table, m);
                }
            },
            PatternItem::WordAsTable => {
                if let SQLite3TokenView::Identifier(s, _) = ts[j] {
                    lemma_match_from_table(ts, pat, j + 1, schema, Some(s), m);
                    if !(exists|k: int| j + 1 <= k < pat.len() && is_identifier(#[trigger] ts[k], m.table)) {
                        assert(is_identifier(ts[j], m.table));
                    }
                }
            },
        }
    }
}

proof fn lemma_try_patterns_table(
    nw: Seq<SQLite3TokenView>,
    i: int,
    pats: Seq<Seq<PatternItem>>,
    p: int,
    m: TableToBeModifiedView,
)
    requires
        0 <= i < nw.len(),
        try_patterns(nw, i, pats, p) == Some(Some(m)),
    ensures
        exists|k: int| 0 <= k < nw.len() && is_identifier(#[trigger] nw[k], m.table),
    decreases pats.len() - p,
{
    if 0 <= p < pats.len() {
        let rest = nw.skip(i + 1);
        if i + pats[p].len() < nw.len() && match_pattern_spec(rest, pats[p]) is Some {
            lemma_match_from_table(rest, pats[p], 0, None, None, m);
            let k = choose|k: int| 0 <= k < pats[p].len() && is_identifier(#[trigger] rest[k], m.table);
            assert(rest[k] == nw[i + 1 + k]);
        } else {
            lemma_try_patterns_table(nw, i, pats, p + 1, m);
        }
    }
}

proof fn lemma_table_from_table(nw: Seq<SQLite3TokenView>, i: int, m: TableToBeModifiedView)
    requires
        0 <= i,
        table_from(nw, i) == Some(m),
    ensures
        exists|k: int| 0 <= k < nw.len() && is_identifier(#[trigger] nw[k], m.table),
    decreases nw.len() - i,
{
    if i < nw.len() {
        match nw[i] {
            SQLite3TokenView::Keyword(kw) => match try_patterns(nw, i, pattern_list(kw), 0) {
                Some(r) => {
                    lemma_try_patterns_table(nw, i, pattern_list(kw), 0, m);
                },
                None => {
                    lemma_table_from_table(nw, i + 1, m);
                },
            },
            _ => {
                lemma_table_from_table(nw, i + 1, m);
            },
        }
    }
}

proof fn lemma_non_whitespace_from(ts: Seq<WithZeroIndexedRange<SQLite3TokenView>>, k: int)
    requires
        0 <= k < non_whitespace(ts).len(),
    ensures
        exists|j: int| 0 <= j < ts.len() && #[trigger] ts[j].value == non_whitespace(ts)[k],
    decreases ts.len(),
{
    if ts.len() > 0 {
        let rest = ts.drop_last();
        if ts.last().value is Whitespace {
            lemma_non_whitespace_from(rest, k);
            let j = choose|j: int| 0 <= j < rest.len() && #[trigger] rest[j].value == non_whitespace(rest)[k];
            assert(ts[j] == rest[j]);
        } else if k < non_whitespace(rest).len() {
            lemma_non_whitespace_from(rest, k);
            let j = choose|j: int| 0 <= j < rest.len() && #[trigger] rest[j].value == non_whitespace(rest)[k];
            assert(ts[j] == rest[j]);
        } else {
            assert(ts[ts.len() - 1].value == non_whitespace(ts)[k]);
        }
    }
}

proof fn lemma_non_whitespace_filter(ts: Seq<WithZeroIndexedRange<SQLite3TokenView>>)
    ensures
        non_whitespace(ts.filter(|t: WithZeroIndexedRange<SQLite3TokenView>| !(t.value is Whitespace)))
            == non_whitespace(ts),
    decreases ts.len(),
{
    reveal(Seq::filter);
    let p = |t: WithZeroIndexedRange<SQLite3TokenView>| !(t.value is Whitespace);
    if ts.len() > 0 {
        lemma_non_whitespace_filter(ts.drop_last());
        let f = ts.filter(p);
        let fr = ts.drop_last().filter(p);
        if p(ts.last()) {
            assert(f == fr.push(ts.last()));
            assert(f.drop_last() =~= fr);
        } else {
            assert(f == fr);
        }
    }
}

/// Whitespace plays no part in which table a statement modifies, and the
/// table found is one of the statement's identifiers.
pub proof fn law_table_to_be_modified_ignores_whitespace(ts: Seq<WithZeroIndexedRange<SQLite3TokenView>>)
    ensures
        table_to_be_modified(ts) == table_to_be_modified(
            ts.filter(|t: WithZeroIndexedRange<SQLite3TokenView>| !(t.value is Whitespace)),
        ),
        table_to_be_modified(ts) matches Some(m) ==> exists|j: int|
            0 <= j < ts.len() && is_identifier(#[trigger] ts[j].value, m.table),
{
    lemma_non_whitespace_filter(ts);
    if let Some(m) = table_to_be_modified(ts) {
        let nw = non_whitespace(ts);
        lemma_table_from_table(nw, 0, m);
        let k = choose|k: int| 0 <= k < nw.len() && is_identifier(#[trigger] nw[k], m.table);
        lemma_non_whitespace_from(ts, k);
        let j = choose|j: int| 0 <= j < ts.len() && #[trigger] ts[j].value == nw[k];
        assert(is_identifier(ts[j].value, m.table));
    }
}

proof fn lemma_try_patterns_skip(nw: Seq<SQLite3TokenView>, i: int, pats: Seq<Seq<PatternItem>>, p: int, r: int)
    requires
        0 <= p <= r <= pats.len(),
        forall|q: int|
            p <= q < r ==> !(i + pats[q].len() < nw.len() && match_pattern_spec(nw.skip(i + 1), #[trigger] pats[q]) is Some),
    ensures
        try_patterns(nw, i, pats, p) == try_patterns(nw, i, pats, r),
    decreases r - p,
{
    if p < r {
        lemma_try_patterns_skip(nw, i, pats, p + 1, r);
    }
}

proof fn lemma_match_keywords(
    ts: Seq<SQLite3TokenView>,
    ph: Seq<PatternItem>,
    tail: Seq<PatternItem>,
    j: int,
    schema: Option<Seq<char>>,
    table: Option<Seq<char>>,
)
    requires
        0 <= j <= ph.len(),
        forall|m: int| 0 <= m < ph.len() ==> (#[trigger] ph[m]) is Keyword && ts[m] == SQLite3TokenView::Keyword(ph[m]->Keyword_0),
    ensures
        match_from(ts, ph + tail, j, schema, table) == match_from(ts, ph + tail, ph.len() as int, schema, table),
    decreases ph.len() - j,
{
    if j < ph.len() {
        assert((ph + tail)[j] == ph[j]);
        lemma_match_keywords(ts, ph, tail, j + 1, schema, table);
    }
}

/// Where the first token is a keyword whose patterns from `base` on are
/// `after` followed by a name (as `schema.table`, then as `table`), no
/// earlier pattern matches, and the tokens are that keyword, `after` and a
/// name, the table found is that name.
proof fn lemma_phrase_then_name(nw: Seq<SQLite3TokenView>, after: Seq<PatternItem>, base: int)
    requires
        nw.len() > after.len() + 1,
        nw[0] is Keyword,
        0 <= base,
        base + 1 < pattern_list(nw[0]->Keyword_0).len(),
        pattern_list(nw[0]->Keyword_0)[base] == after + seq![
            PatternItem::WordAsSchema,
            PatternItem::Period,
            PatternItem::WordAsTable,
        ],
        pattern_list(nw[0]->Keyword_0)[base + 1] == after + seq![PatternItem::WordAsTable],
        forall|q: int|
            0 <= q < base ==> !((#[trigger] pattern_list(nw[0]->Keyword_0)[q]).len() < nw.len() && match_pattern_spec(
                nw.skip(1),
                pattern_list(nw[0]->Keyword_0)[q],
            ) is Some),
        forall|m: int|
            0 <= m < after.len() ==> (#[trigger] after[m]) is Keyword && nw[m + 1] == SQLite3TokenView::Keyword(
                after[m]->Keyword_0,
            ),
        nw[after.len() as int + 1] is Identifier,
    ensures
        ({
            let n = after.len() as int + 1;
            let name = nw[n]->Identifier_0;
            if nw.len() >= n + 3 && nw[n + 1] is Period && nw[n + 2] is Identifier {
                table_from(nw, 0) == Some(TableToBeModifiedView { schema: Some(name), table: nw[n + 2]->Identifier_0 })
            } else {
                table_from(nw, 0) == Some(TableToBeModifiedView { schema: None, table: name })
            }
        }),
{
    let pl = pattern_list(nw[0]->Keyword_0);
    let rest = nw.skip(1);
    let n = after.len() as int + 1;
    let sch = seq![PatternItem::WordAsSchema, PatternItem::Period, PatternItem::WordAsTable];
    let tab = seq![PatternItem::WordAsTable];
    let long = pl[base];
    let short = pl[base + 1];
    assert forall|m: int| 0 <= m < after.len() implies (#[trigger] after[m]) is Keyword && rest[m]
        == SQLite3TokenView::Keyword(after[m]->Keyword_0) by {
        assert(rest[m] == nw[m + 1]);
    }
    lemma_try_patterns_skip(nw, 0, pl, 0, base);
    lemma_match_keywords(rest, after, sch, 0, None, None);
    lemma_match_keywords(rest, after, tab, 0, None, None);
    assert(rest[after.len() as int] == nw[n]);
    assert(table_from(nw, 0) == match try_patterns(nw, 0, pl, 0) {
        Some(r) => r,
        None => table_from(nw, 1),
    });
    reveal_with_fuel(match_from, 4);
    assert(long[after.len() as int] == PatternItem::WordAsSchema);
    assert(long[after.len() as int + 1] == PatternItem::Period);
    assert(long[after.len() as int + 2] == PatternItem::WordAsTable);
    assert(short[after.len() as int] == PatternItem::WordAsTable);
    if nw.len() >= n + 3 && nw[n + 1] is Period && nw[n + 2] is Identifier {
        let m = TableToBeModifiedView { schema: Some(nw[n]->Identifier_0), table: nw[n + 2]->Identifier_0 };
        assert(rest[n] == nw[n + 1] && rest[n + 1] == nw[n + 2]);
        assert(match_from(rest, long, after.len() as int, None, None) == Some(Some(m)));
        assert(match_pattern_spec(rest, long) == Some(Some(m)));
        assert(try_patterns(nw, 0, pl, base) == Some(Some(m)));
    } else {
        let m = TableToBeModifiedView { schema: None, table: nw[n]->Identifier_0 };
        if long.len() < nw.len() {
            assert(rest[n] == nw[n + 1] && rest[n + 1] == nw[n + 2]);
            assert(match_from(rest, long, after.len() as int, None, None) is None);
        }
        assert(match_from(rest, short, after.len() as int, None, None) == Some(Some(m)));
        assert(match_pattern_spec(rest, short) == Some(Some(m)));
        assert(try_patterns(nw, 0, pl, base) == try_patterns(nw, 0, pl, base + 1));
        assert(try_patterns(nw, 0, pl, base + 1) == Some(Some(m)));
    }
}

/// The phrases that name, right after them, the table that a statement
/// modifies: `CREATE TABLE`, `CREATE VIEW` and `CREATE VIRTUAL TABLE`, each
/// also with `IF NOT EXISTS`; `REPLACE INTO`; `INSERT INTO` and `INSERT OR
/// ... INTO`; `UPDATE` and `UPDATE OR ... INTO`; `ALTER TABLE`.
pub open spec fn modifying_phrase(ph: Seq<SQLite3Keyword>) -> bool {
    ||| ph == seq![SQLite3Keyword::CREATE, SQLite3Keyword::TABLE]
    ||| ph == seq![SQLite3Keyword::CREATE, SQLite3Keyword::TABLE, SQLite3Keyword::IF, SQLite3Keyword::NOT, SQLite3Keyword::EXISTS]
    ||| ph == seq![SQLite3Keyword::CREATE, SQLite3Keyword::VIEW]
    ||| ph == seq![SQLite3Keyword::CREATE, SQLite3Keyword::VIEW, SQLite3Keyword::IF, SQLite3Keyword::NOT, SQLite3Keyword::EXISTS]
    ||| ph == seq![SQLite3Keyword::CREATE, SQLite3Keyword::VIRTUAL, SQLite3Keyword::TABLE]
    ||| ph == seq![SQLite3Keyword::CREATE, SQLite3Keyword::VIRTUAL, SQLite3Keyword::TABLE, SQLite3Keyword::IF, SQLite3Keyword::NOT, SQLite3Keyword::EXISTS]
    ||| ph == seq![SQLite3Keyword::REPLACE, SQLite3Keyword::INTO]
    ||| ph == seq![SQLite3Keyword::INSERT, SQLite3Keyword::INTO]
    ||| ph == seq![SQLite3Keyword::INSERT, SQLite3Keyword::OR, SQLite3Keyword::ABORT, SQLite3Keyword::INTO]
    ||| ph == seq![SQLite3Keyword::INSERT, SQLite3Keyword::OR, SQLite3Keyword::FAIL, SQLite3Keyword::INTO]
    ||| ph == seq![SQLite3Keyword::INSERT, SQLite3Keyword::OR, SQLite3Keyword::IGNORE, SQLite3Keyword::INTO]
    ||| ph == seq![SQLite3Keyword::INSERT, SQLite3Keyword::OR, SQLite3Keyword::REPLACE, SQLite3Keyword::INTO]
    ||| ph == seq![SQLite3Keyword::INSERT, SQLite3Keyword::OR, SQLite3Keyword::ROLLBACK, SQLite3Keyword::INTO]
    ||| ph == seq![SQLite3Keyword::UPDATE]
    ||| ph == seq![SQLite3Keyword::UPDATE, SQLite3Keyword::OR, SQLite3Keyword::ABORT, SQLite3Keyword::INTO]
    ||| ph == seq![SQLite3Keyword::UPDATE, SQLite3Keyword::OR, SQLite3Keyword::FAIL, SQLite3Keyword::INTO]
    ||| ph == seq![SQLite3Keyword::UPDATE, SQLite3Keyword::OR, SQLite3Keyword::IGNORE, SQLite3Keyword::INTO]
    ||| ph == seq![SQLite3Keyword::UPDATE, SQLite3Keyword::OR, SQLite3Keyword::REPLACE, SQLite3Keyword::INTO]
    ||| ph == seq![SQLite3Keyword::UPDATE, SQLite3Keyword::OR, SQLite3Keyword::ROLLBACK, SQLite3Keyword::INTO]
    ||| ph == seq![SQLite3Keyword::ALTER, SQLite3Keyword::TABLE]
}

/// The table named after a phrase that starts with `CREATE`.
proof fn lemma_create_phrase(nw: Seq<SQLite3TokenView>, ph: Seq<SQLite3Keyword>)
    requires
        ph == seq![SQLite3Keyword::CREATE, SQLite3Keyword::TABLE] || ph == seq![SQLite3Keyword::CREATE, SQLite3Keyword::TABLE, SQLite3Keyword::IF, SQLite3Keyword::NOT, SQLite3Keyword::EXISTS] || ph == seq![SQLite3Keyword::CREATE, SQLite3Keyword::VIEW] || ph == seq![SQLite3Keyword::CREATE, SQLite3Keyword::VIEW, SQLite3Keyword::IF, SQLite3Keyword::NOT, SQLite3Keyword::EXISTS] || ph == seq![SQLite3Keyword::CREATE, SQLite3Keyword::VIRTUAL, SQLite3Keyword::TABLE] || ph == seq![SQLite3Keyword::CREATE, SQLite3Keyword::VIRTUAL, SQLite3Keyword::TABLE, SQLite3Keyword::IF, SQLite3Keyword::NOT, SQLite3Keyword::EXISTS],
        nw.len() > ph.len(),
        forall|j: int| 0 <= j < ph.len() ==> nw[j] == SQLite3TokenView::Keyword(#[trigger] ph[j]),
        nw[ph.len() as int] is Identifier,
    ensures
        ({
            let n = ph.len() as int;
            let name = nw[n]->Identifier_0;
            if nw.len() >= n + 3 && nw[n + 1] is Period && nw[n + 2] is Identifier {
                table_from(nw, 0) == Some(TableToBeModifiedView { schema: Some(name), table: nw[n + 2]->Identifier_0 })
            } else {
                table_from(nw, 0) == Some(TableToBeModifiedView { schema: None, table: name })
            }
        }),
{
    let rest = nw.skip(1);
    assert forall|j: int| 0 <= j < ph.len() implies nw[j] == SQLite3TokenView::Keyword(ph[j]) by {}
    assert forall|m: int| 0 <= m < rest.len() implies rest[m] == nw[m + 1] by {}
    let pl = pattern_list(SQLite3Keyword::CREATE);
    assert(pl =~~= seq![
        seq![kw(SQLite3Keyword::TRIGGER)],
        seq![kw(SQLite3Keyword::TEMP), kw(SQLite3Keyword::TRIGGER)],
        seq![kw(SQLite3Keyword::TEMPORARY), kw(SQLite3Keyword::TRIGGER)],
        seq![kw(SQLite3Keyword::TABLE)] + seq![PatternItem::WordAsSchema, PatternItem::Period, PatternItem::WordAsTable],
        seq![kw(SQLite3Keyword::TABLE)] + seq![PatternItem::WordAsTable],
        seq![kw(SQLite3Keyword::TABLE), kw(SQLite3Keyword::IF), kw(SQLite3Keyword::NOT), kw(SQLite3Keyword::EXISTS)] + seq![PatternItem::WordAsSchema, PatternItem::Period, PatternItem::WordAsTable],
        seq![kw(SQLite3Keyword::TABLE), kw(SQLite3Keyword::IF), kw(SQLite3Keyword::NOT), kw(SQLite3Keyword::EXISTS)] + seq![PatternItem::WordAsTable],
        seq![kw(SQLite3Keyword::VIEW)] + seq![PatternItem::WordAsSchema, PatternItem::Period, PatternItem::WordAsTable],
        seq![kw(SQLite3Keyword::VIEW)] + seq![PatternItem::WordAsTable],
        seq![kw(SQLite3Keyword::VIEW), kw(SQLite3Keyword::IF), kw(SQLite3Keyword::NOT), kw(SQLite3Keyword::EXISTS)] + seq![PatternItem::WordAsSchema, PatternItem::Period, PatternItem::WordAsTable],
        seq![kw(SQLite3Keyword::VIEW), kw(SQLite3Keyword::IF), kw(SQLite3Keyword::NOT), kw(SQLite3Keyword::EXISTS)] + seq![PatternItem::WordAsTable],
        seq![kw(SQLite3Keyword::VIRTUAL), kw(SQLite3Keyword::TABLE)] + seq![PatternItem::WordAsSchema, PatternItem::Period, PatternItem::WordAsTable],
        seq![kw(SQLite3Keyword::VIRTUAL), kw(SQLite3Keyword::TABLE)] + seq![PatternItem::WordAsTable],
        seq![kw(SQLite3Keyword::VIRTUAL), kw(SQLite3Keyword::TABLE), kw(SQLite3Keyword::IF), kw(SQLite3Keyword::NOT), kw(SQLite3Keyword::EXISTS)] + seq![PatternItem::WordAsSchema, PatternItem::Period, PatternItem::WordAsTable],
        seq![kw(SQLite3Keyword::VIRTUAL), kw(SQLite3Keyword::TABLE), kw(SQLite3Keyword::IF), kw(SQLite3Keyword::NOT), kw(SQLite3Keyword::EXISTS)] + seq![PatternItem::WordAsTable],
    ]);
    reveal_with_fuel(match_from, 4);
    if ph == seq![SQLite3Keyword::CREATE, SQLite3Keyword::TABLE] {
        assert(!(pl[0].len() < nw.len() && match_pattern_spec(rest, pl[0]) is Some));
        assert(!(pl[1].len() < nw.len() && match_pattern_spec(rest, pl[1]) is Some));
        assert(!(pl[2].len() < nw.len() && match_pattern_spec(rest, pl[2]) is Some));
        lemma_phrase_then_name(nw, seq![kw(SQLite3Keyword::TABLE)], 3);
    } else if ph == seq![SQLite3Keyword::CREATE, SQLite3Keyword::TABLE, SQLite3Keyword::IF, SQLite3Keyword::NOT, SQLite3Keyword::EXISTS] {
        assert(!(pl[0].len() < nw.len() && match_pattern_spec(rest, pl[0]) is Some));
        assert(!(pl[1].len() < nw.len() && match_pattern_spec(rest, pl[1]) is Some));
        assert(!(pl[2].len() < nw.len() && match_pattern_spec(rest, pl[2]) is Some));
        assert(!(pl[3].len() < nw.len() && match_pattern_spec(rest, pl[3]) is Some));
        assert(!(pl[4].len() < nw.len() && match_pattern_spec(rest, pl[4]) is Some));
        lemma_phrase_then_name(nw, seq![kw(SQLite3Keyword::TABLE), kw(SQLite3Keyword::IF), kw(SQLite3Keyword::NOT), kw(SQLite3Keyword::EXISTS)], 5);
    } else if ph == seq![SQLite3Keyword::CREATE, SQLite3Keyword::VIEW] {
        assert(!(pl[0].len() < nw.len() && match_pattern_spec(rest, pl[0]) is Some));
        assert(!(pl[1].len() < nw.len() && match_pattern_spec(rest, pl[1]) is Some));
        assert(!(pl[2].len() < nw.len() && match_pattern_spec(rest, pl[2]) is Some));
        assert(!(pl[3].len() < nw.len() && match_pattern_spec(rest, pl[3]) is Some));
        assert(!(pl[4].len() < nw.len() && match_pattern_spec(rest, pl[4]) is Some));
        assert(!(pl[5].len() < nw.len() && match_pattern_spec(rest, pl[5]) is Some));
        assert(!(pl[6].len() < nw.len() && match_pattern_spec(rest, pl[6]) is Some));
        lemma_phrase_then_name(nw, seq![kw(SQLite3Keyword::VIEW)], 7);
    } else if ph == seq![SQLite3Keyword::CREATE, SQLite3Keyword::VIEW, SQLite3Keyword::IF, SQLite3Keyword::NOT, SQLite3Keyword::EXISTS] {
        assert(!(pl[0].len() < nw.len() && match_pattern_spec(rest, pl[0]) is Some));
        assert(!(pl[1].len() < nw.len() && match_pattern_spec(rest, pl[1]) is Some));
        assert(!(pl[2].len() < nw.len() && match_pattern_spec(rest, pl[2]) is Some));
        assert(!(pl[3].len() < nw.len() && match_pattern_spec(rest, pl[3]) is Some));
        assert(!(pl[4].len() < nw.len() && match_pattern_spec(rest, pl[4]) is Some));
        assert(!(pl[5].len() < nw.len() && match_pattern_spec(rest, pl[5]) is Some));
        assert(!(pl[6].len() < nw.len() && match_pattern_spec(rest, pl[6]) is Some));
        assert(!(pl[7].len() < nw.len() && match_pattern_spec(rest, pl[7]) is Some));
        assert(!(pl[8].len() < nw.len() && match_pattern_spec(rest, pl[8]) is Some));
        lemma_phrase_then_name(nw, seq![kw(SQLite3Keyword::VIEW), kw(SQLite3Keyword::IF), kw(SQLite3Keyword::NOT), kw(SQLite3Keyword::EXISTS)], 9);
    } else if ph == seq![SQLite3Keyword::CREATE, SQLite3Keyword::VIRTUAL, SQLite3Keyword::TABLE] {
        assert(!(pl[0].len() < nw.len() && match_pattern_spec(rest, pl[0]) is Some));
        assert(!(pl[1].len() < nw.len() && match_pattern_spec(rest, pl[1]) is Some));
        assert(!(pl[2].len() < nw.len() && match_pattern_spec(rest, pl[2]) is Some));
        assert(!(pl[3].len() < nw.len() && match_pattern_spec(rest, pl[3]) is Some));
        assert(!(pl[4].len() < nw.len() && match_pattern_spec(rest, pl[4]) is Some));
        assert(!(pl[5].len() < nw.len() && match_pattern_spec(rest, pl[5]) is Some));
        assert(!(pl[6].len() < nw.len() && match_pattern_spec(rest, pl[6]) is Some));
        assert(!(pl[7].len() < nw.len() && match_pattern_spec(rest, pl[7]) is Some));
        assert(!(pl[8].len() < nw.len() && match_pattern_spec(rest, pl[8]) is Some));
        assert(!(pl[9].len() < nw.len() && match_pattern_spec(rest, pl[9]) is Some));
        assert(!(pl[10].len() < nw.len() && match_pattern_spec(rest, pl[10]) is Some));
        lemma_phrase_then_name(nw, seq![kw(SQLite3Keyword::VIRTUAL), kw(SQLite3Keyword::TABLE)], 11);
    } else if ph == seq![SQLite3Keyword::CREATE, SQLite3Keyword::VIRTUAL, SQLite3Keyword::TABLE, SQLite3Keyword::IF, SQLite3Keyword::NOT, SQLite3Keyword::EXISTS] {
        assert(!(pl[0].len() < nw.len() && match_pattern_spec(rest, pl[0]) is Some));
        assert(!(pl[1].len() < nw.len() && match_pattern_spec(rest, pl[1]) is Some));
        assert(!(pl[2].len() < nw.len() && match_pattern_spec(rest, pl[2]) is Some));
        assert(!(pl[3].len() < nw.len() && match_pattern_spec(rest, pl[3]) is Some));
        assert(!(pl[4].len() < nw.len() && match_pattern_spec(rest, pl[4]) is Some));
        assert(!(pl[5].len() < nw.len() && match_pattern_spec(rest, pl[5]) is Some));
        assert(!(pl[6].len() < nw.len() && match_pattern_spec(rest, pl[6]) is Some));
        assert(!(pl[7].len() < nw.len() && match_pattern_spec(rest, pl[7]) is Some));
        assert(!(pl[8].len() < nw.len() && match_pattern_spec(rest, pl[8]) is Some));
        assert(!(pl[9].len() < nw.len() && match_pattern_spec(rest, pl[9]) is Some));
        assert(!(pl[10].len() < nw.len() && match_pattern_spec(rest, pl[10]) is Some));
        assert(!(pl[11].len() < nw.len() && match_pattern_spec(rest, pl[11]) is Some));
        assert(!(pl[12].len() < nw.len() && match_pattern_spec(rest, pl[12]) is Some));
        lemma_phrase_then_name(nw, seq![kw(SQLite3Keyword::VIRTUAL), kw(SQLite3Keyword::TABLE), kw(SQLite3Keyword::IF), kw(SQLite3Keyword::NOT), kw(SQLite3Keyword::EXISTS)], 13);
    }
}

/// The table named after a phrase that starts with `REPLACE`.
proof fn lemma_replace_phrase(nw: Seq<SQLite3TokenView>, ph: Seq<SQLite3Keyword>)
    requires
        ph == seq![SQLite3Keyword::REPLACE, SQLite3Keyword::INTO],
        nw.len() > ph.len(),
        forall|j: int| 0 <= j < ph.len() ==> nw[j] == SQLite3TokenView::Keyword(#[trigger] ph[j]),
        nw[ph.len() as int] is Identifier,
    ensures
        ({
            let n = ph.len() as int;
            let name = nw[n]->Identifier_0;
            if nw.len() >= n + 3 && nw[n + 1] is Period && nw[n + 2] is Identifier {
                table_from(nw, 0) == Some(TableToBeModifiedView { schema: Some(name), table: nw[n + 2]->Identifier_0 })
            } else {
                table_from(nw, 0) == Some(TableToBeModifiedView { schema: None, table: name })
            }
        }),
{
    let rest = nw.skip(1);
    assert forall|j: int| 0 <= j < ph.len() implies nw[j] == SQLite3TokenView::Keyword(ph[j]) by {}
    assert forall|m: int| 0 <= m < rest.len() implies rest[m] == nw[m + 1] by {}
    let pl = pattern_list(SQLite3Keyword::REPLACE);
    assert(pl =~~= seq![
        seq![kw(SQLite3Keyword::INTO)] + seq![PatternItem::WordAsSchema, PatternItem::Period, PatternItem::WordAsTable],
        seq![kw(SQLite3Keyword::INTO)] + seq![PatternItem::WordAsTable],
    ]);
    reveal_with_fuel(match_from, 4);
    if ph == seq![SQLite3Keyword::REPLACE, SQLite3Keyword::INTO] {
        lemma_phrase_then_name(nw, seq![kw(SQLite3Keyword::INTO)], 0);
    }
}

/// The table named after a phrase that starts with `INSERT`.
proof fn lemma_insert_phrase(nw: Seq<SQLite3TokenView>, ph: Seq<SQLite3Keyword>)
    requires
        ph == seq![SQLite3Keyword::INSERT, SQLite3Keyword::INTO] || ph == seq![SQLite3Keyword::INSERT, SQLite3Keyword::OR, SQLite3Keyword::ABORT, SQLite3Keyword::INTO] || ph == seq![SQLite3Keyword::INSERT, SQLite3Keyword::OR, SQLite3Keyword::FAIL, SQLite3Keyword::INTO] || ph == seq![SQLite3Keyword::INSERT, SQLite3Keyword::OR, SQLite3Keyword::IGNORE, SQLite3Keyword::INTO] || ph == seq![SQLite3Keyword::INSERT, SQLite3Keyword::OR, SQLite3Keyword::REPLACE, SQLite3Keyword::INTO] || ph == seq![SQLite3Keyword::INSERT, SQLite3Keyword::OR, SQLite3Keyword::ROLLBACK, SQLite3Keyword::INTO],
        nw.len() > ph.len(),
        forall|j: int| 0 <= j < ph.len() ==> nw[j] == SQLite3TokenView::Keyword(#[trigger] ph[j]),
        nw[ph.len() as int] is Identifier,
    ensures
        ({
            let n = ph.len() as int;
            let name = nw[n]->Identifier_0;
            if nw.len() >= n + 3 && nw[n + 1] is Period && nw[n + 2] is Identifier {
                table_from(nw, 0) == Some(TableToBeModifiedView { schema: Some(name), table: nw[n + 2]->Identifier_0 })
            } else {
                table_from(nw, 0) == Some(TableToBeModifiedView { schema: None, table: name })
            }
        }),
{
    let rest = nw.skip(1);
    assert forall|j: int| 0 <= j < ph.len() implies nw[j] == SQLite3TokenView::Keyword(ph[j]) by {}
    assert forall|m: int| 0 <= m < rest.len() implies rest[m] == nw[m + 1] by {}
    let pl = pattern_list(SQLite3Keyword::INSERT);
    assert(pl =~~= seq![
        seq![kw(SQLite3Keyword::INTO)] + seq![PatternItem::WordAsSchema, PatternItem::Period, PatternItem::WordAsTable],
        seq![kw(SQLite3Keyword::INTO)] + seq![PatternItem::WordAsTable],
        seq![kw(SQLite3Keyword::OR), kw(SQLite3Keyword::ABORT), kw(SQLite3Keyword::INTO)] + seq![PatternItem::WordAsSchema, PatternItem::Period, PatternItem::WordAsTable],
        seq![kw(SQLite3Keyword::OR), kw(SQLite3Keyword::ABORT), kw(SQLite3Keyword::INTO)] + seq![PatternItem::WordAsTable],
        seq![kw(SQLite3Keyword::OR), kw(SQLite3Keyword::FAIL), kw(SQLite3Keyword::INTO)] + seq![PatternItem::WordAsSchema, PatternItem::Period, PatternItem::WordAsTable],
        seq![kw(SQLite3Keyword::OR), kw(SQLite3Keyword::FAIL), kw(SQLite3Keyword::INTO)] + seq![PatternItem::WordAsTable],
        seq![kw(SQLite3Keyword::OR), kw(SQLite3Keyword::IGNORE), kw(SQLite3Keyword::INTO)] + seq![PatternItem::WordAsSchema, PatternItem::Period, PatternItem::WordAsTable],
        seq![kw(SQLite3Keyword::OR), kw(SQLite3Keyword::IGNORE), kw(SQLite3Keyword::INTO)] + seq![PatternItem::WordAsTable],
        seq![kw(SQLite3Keyword::OR), kw(SQLite3Keyword::REPLACE), kw(SQLite3Keyword::INTO)] + seq![PatternItem::WordAsSchema, PatternItem::Period, PatternItem::WordAsTable],
        seq![kw(SQLite3Keyword::OR), kw(SQLite3Keyword::REPLACE), kw(SQLite3Keyword::INTO)] + seq![PatternItem::WordAsTable],
        seq![kw(SQLite3Keyword::OR), kw(SQLite3Keyword::ROLLBACK), kw(SQLite3Keyword::INTO)] + seq![PatternItem::WordAsSchema, PatternItem::Period, PatternItem::WordAsTable],
        seq![kw(SQLite3Keyword::OR), kw(SQLite3Keyword::ROLLBACK), kw(SQLite3Keyword::INTO)] + seq![PatternItem::WordAsTable],
    ]);
    reveal_with_fuel(match_from, 4);
    if ph == seq![SQLite3Keyword::INSERT, SQLite3Keyword::INTO] {
        lemma_phrase_then_name(nw, seq![kw(SQLite3Keyword::INTO)], 0);
    } else if ph == seq![SQLite3Keyword::INSERT, SQLite3Keyword::OR, SQLite3Keyword::ABORT, SQLite3Keyword::INTO] {
        assert(!(pl[0].len() < nw.len() && match_pattern_spec(rest, pl[0]) is Some));
        assert(!(pl[1].len() < nw.len() && match_pattern_spec(rest, pl[1]) is Some));
        lemma_phrase_then_name(nw, seq![kw(SQLite3Keyword::OR), kw(SQLite3Keyword::ABORT), kw(SQLite3Keyword::INTO)], 2);
    } else if ph == seq![SQLite3Keyword::INSERT, SQLite3Keyword::OR, SQLite3Keyword::FAIL, SQLite3Keyword::INTO] {
        assert(!(pl[0].len() < nw.len() && match_pattern_spec(rest, pl[0]) is Some));
        assert(!(pl[1].len() < nw.len() && match_pattern_spec(rest, pl[1]) is Some));
        assert(!(pl[2].len() < nw.len() && match_pattern_spec(rest, pl[2]) is Some));
        assert(!(pl[3].len() < nw.len() && match_pattern_spec(rest, pl[3]) is Some));
        lemma_phrase_then_name(nw, seq![kw(SQLite3Keyword::OR), kw(SQLite3Keyword::FAIL), kw(SQLite3Keyword::INTO)], 4);
    } else if ph == seq![SQLite3Keyword::INSERT, SQLite3Keyword::OR, SQLite3Keyword::IGNORE, SQLite3Keyword::INTO] {
        assert(!(pl[0].len() < nw.len() && match_pattern_spec(rest, pl[0]) is Some));
        assert(!(pl[1].len() < nw.len() && match_pattern_spec(rest, pl[1]) is Some));
        assert(!(pl[2].len() < nw.len() && match_pattern_spec(rest, pl[2]) is Some));
        assert(!(pl[3].len() < nw.len() && match_pattern_spec(rest, pl[3]) is Some));
        assert(!(pl[4].len() < nw.len() && match_pattern_spec(rest, pl[4]) is Some));
        assert(!(pl[5].len() < nw.len() && match_pattern_spec(rest, pl[5]) is Some));
        lemma_phrase_then_name(nw, seq![kw(SQLite3Keyword::OR), kw(SQLite3Keyword::IGNORE), kw(SQLite3Keyword::INTO)], 6);
    } else if ph == seq![SQLite3Keyword::INSERT, SQLite3Keyword::OR, SQLite3Keyword::REPLACE, SQLite3Keyword::INTO] {
        assert(!(pl[0].len() < nw.len() && match_pattern_spec(rest, pl[0]) is Some));
        assert(!(pl[1].len() < nw.len() && match_pattern_spec(rest, pl[1]) is Some));
        assert(!(pl[2].len() < nw.len() && match_pattern_spec(rest, pl[2]) is Some));
        assert(!(pl[3].len() < nw.len() && match_pattern_spec(rest, pl[3]) is Some));
        assert(!(pl[4].len() < nw.len() && match_pattern_spec(rest, pl[4]) is Some));
        assert(!(pl[5].len() < nw.len() && match_pattern_spec(rest, pl[5]) is Some));
        assert(!(pl[6].len() < nw.len() && match_pattern_spec(rest, pl[6]) is Some));
        assert(!(pl[7].len() < nw.len() && match_pattern_spec(rest, pl[7]) is Some));
        lemma_phrase_then_name(nw, seq![kw(SQLite3Keyword::OR), kw(SQLite3Keyword::REPLACE), kw(SQLite3Keyword::INTO)], 8);
    } else if ph == seq![SQLite3Keyword::INSERT, SQLite3Keyword::OR, SQLite3Keyword::ROLLBACK, SQLite3Keyword::INTO] {
        assert(!(pl[0].len() < nw.len() && match_pattern_spec(rest, pl[0]) is Some));
        assert(!(pl[1].len() < nw.len() && match_pattern_spec(rest, pl[1]) is Some));
        assert(!(pl[2].len() < nw.len() && match_pattern_spec(rest, pl[2]) is Some));
        assert(!(pl[3].len() < nw.len() && match_pattern_spec(rest, pl[3]) is Some));
        assert(!(pl[4].len() < nw.len() && match_pattern_spec(rest, pl[4]) is Some));
        assert(!(pl[5].len() < nw.len() && match_pattern_spec(rest, pl[5]) is Some));
        assert(!(pl[6].len() < nw.len() && match_pattern_spec(rest, pl[6]) is Some));
        assert(!(pl[7].len() < nw.len() && match_pattern_spec(rest, pl[7]) is Some));
        assert(!(pl[8].len() < nw.len() && match_pattern_spec(rest, pl[8]) is Some));
        assert(!(pl[9].len() < nw.len() && match_pattern_spec(rest, pl[9]) is Some));
        lemma_phrase_then_name(nw, seq![kw(SQLite3Keyword::OR), kw(SQLite3Keyword::ROLLBACK), kw(SQLite3Keyword::INTO)], 10);
    }
}

/// The table named after a phrase that starts with `UPDATE`.
proof fn lemma_update_phrase(nw: Seq<SQLite3TokenView>, ph: Seq<SQLite3Keyword>)
    requires
        ph == seq![SQLite3Keyword::UPDATE] || ph == seq![SQLite3Keyword::UPDATE, SQLite3Keyword::OR, SQLite3Keyword::ABORT, SQLite3Keyword::INTO] || ph == seq![SQLite3Keyword::UPDATE, SQLite3Keyword::OR, SQLite3Keyword::FAIL, SQLite3Keyword::INTO] || ph == seq![SQLite3Keyword::UPDATE, SQLite3Keyword::OR, SQLite3Keyword::IGNORE, SQLite3Keyword::INTO] || ph == seq![SQLite3Keyword::UPDATE, SQLite3Keyword::OR, SQLite3Keyword::REPLACE, SQLite3Keyword::INTO] || ph == seq![SQLite3Keyword::UPDATE, SQLite3Keyword::OR, SQLite3Keyword::ROLLBACK, SQLite3Keyword::INTO],
        nw.len() > ph.len(),
        forall|j: int| 0 <= j < ph.len() ==> nw[j] == SQLite3TokenView::Keyword(#[trigger] ph[j]),
        nw[ph.len() as int] is Identifier,
    ensures
        ({
            let n = ph.len() as int;
            let name = nw[n]->Identifier_0;
            if nw.len() >= n + 3 && nw[n + 1] is Period && nw[n + 2] is Identifier {
                table_from(nw, 0) == Some(TableToBeModifiedView { schema: Some(name), table: nw[n + 2]->Identifier_0 })
            } else {
                table_from(nw, 0) == Some(TableToBeModifiedView { schema: None, table: name })
            }
        }),
{
    let rest = nw.skip(1);
    assert forall|j: int| 0 <= j < ph.len() implies nw[j] == SQLite3TokenView::Keyword(ph[j]) by {}
    assert forall|m: int| 0 <= m < rest.len() implies rest[m] == nw[m + 1] by {}
    let pl = pattern_list(SQLite3Keyword::UPDATE);
    assert(pl =~~= seq![
        Seq::<PatternItem>::empty() + seq![PatternItem::WordAsSchema, PatternItem::Period, PatternItem::WordAsTable],
        Seq::<PatternItem>::empty() + seq![PatternItem::WordAsTable],
        seq![kw(SQLite3Keyword::OR), kw(SQLite3Keyword::ABORT), kw(SQLite3Keyword::INTO)] + seq![PatternItem::WordAsSchema, PatternItem::Period, PatternItem::WordAsTable],
        seq![kw(SQLite3Keyword::OR), kw(SQLite3Keyword::ABORT), kw(SQLite3Keyword::INTO)] + seq![PatternItem::WordAsTable],
        seq![kw(SQLite3Keyword::OR), kw(SQLite3Keyword::FAIL), kw(SQLite3Keyword::INTO)] + seq![PatternItem::WordAsSchema, PatternItem::Period, PatternItem::WordAsTable],
        seq![kw(SQLite3Keyword::OR), kw(SQLite3Keyword::FAIL), kw(SQLite3Keyword::INTO)] + seq![PatternItem::WordAsTable],
        seq![kw(SQLite3Keyword::OR), kw(SQLite3Keyword::IGNORE), kw(SQLite3Keyword::INTO)] + seq![PatternItem::WordAsSchema, PatternItem::Period, PatternItem::WordAsTable],
        seq![kw(SQLite3Keyword::OR), kw(SQLite3Keyword::IGNORE), kw(SQLite3Keyword::INTO)] + seq![PatternItem::WordAsTable],
        seq![kw(SQLite3Keyword::OR), kw(SQLite3Keyword::REPLACE), kw(SQLite3Keyword::INTO)] + seq![PatternItem::WordAsSchema, PatternItem::Period, PatternItem::WordAsTable],
        seq![kw(SQLite3Keyword::OR), kw(SQLite3Keyword::REPLACE), kw(SQLite3Keyword::INTO)] + seq![PatternItem::WordAsTable],
        seq![kw(SQLite3Keyword::OR), kw(SQLite3Keyword::ROLLBACK), kw(SQLite3Keyword::INTO)] + seq![PatternItem::WordAsSchema, PatternItem::Period, PatternItem::WordAsTable],
        seq![kw(SQLite3Keyword::OR), kw(SQLite3Keyword::ROLLBACK), kw(SQLite3Keyword::INTO)] + seq![PatternItem::WordAsTable],
    ]);
    reveal_with_fuel(match_from, 4);
    if ph == seq![SQLite3Keyword::UPDATE] {
        lemma_phrase_then_name(nw, Seq::<PatternItem>::empty(), 0);
    } else if ph == seq![SQLite3Keyword::UPDATE, SQLite3Keyword::OR, SQLite3Keyword::ABORT, SQLite3Keyword::INTO] {
        assert(!(pl[0].len() < nw.len() && match_pattern_spec(rest, pl[0]) is Some));
        assert(!(pl[1].len() < nw.len() && match_pattern_spec(rest, pl[1]) is Some));
        lemma_phrase_then_name(nw, seq![kw(SQLite3Keyword::OR), kw(SQLite3Keyword::ABORT), kw(SQLite3Keyword::INTO)], 2);
    } else if ph == seq![SQLite3Keyword::UPDATE, SQLite3Keyword::OR, SQLite3Keyword::FAIL, SQLite3Keyword::INTO] {
        assert(!(pl[0].len() < nw.len() && match_pattern_spec(rest, pl[0]) is Some));
        assert(!(pl[1].len() < nw.len() && match_pattern_spec(rest, pl[1]) is Some));
        assert(!(pl[2].len() < nw.len() && match_pattern_spec(rest, pl[2]) is Some));
        assert(!(pl[3].len() < nw.len() && match_pattern_spec(rest, pl[3]) is Some));
        lemma_phrase_then_name(nw, seq![kw(SQLite3Keyword::OR), kw(SQLite3Keyword::FAIL), kw(SQLite3Keyword::INTO)], 4);
    } else if ph == seq![SQLite3Keyword::UPDATE, SQLite3Keyword::OR, SQLite3Keyword::IGNORE, SQLite3Keyword::INTO] {
        assert(!(pl[0].len() < nw.len() && match_pattern_spec(rest, pl[0]) is Some));
        assert(!(pl[1].len() < nw.len() && match_pattern_spec(rest, pl[1]) is Some));
        assert(!(pl[2].len() < nw.len() && match_pattern_spec(rest, pl[2]) is Some));
        assert(!(pl[3].len() < nw.len() && match_pattern_spec(rest, pl[3]) is Some));
        assert(!(pl[4].len() < nw.len() && match_pattern_spec(rest, pl[4]) is Some));
        assert(!(pl[5].len() < nw.len() && match_pattern_spec(rest, pl[5]) is Some));
        lemma_phrase_then_name(nw, seq![kw(SQLite3Keyword::OR), kw(SQLite3Keyword::IGNORE), kw(SQLite3Keyword::INTO)], 6);
    } else if ph == seq![SQLite3Keyword::UPDATE, SQLite3Keyword::OR, SQLite3Keyword::REPLACE, SQLite3Keyword::INTO] {
        assert(!(pl[0].len() < nw.len() && match_pattern_spec(rest, pl[0]) is Some));
        assert(!(pl[1].len() < nw.len() && match_pattern_spec(rest, pl[1]) is Some));
        assert(!(pl[2].len() < nw.len() && match_pattern_spec(rest, pl[2]) is Some));
        assert(!(pl[3].len() < nw.len() && match_pattern_spec(rest, pl[3]) is Some));
        assert(!(pl[4].len() < nw.len() && match_pattern_spec(rest, pl[4]) is Some));
        assert(!(pl[5].len() < nw.len() && match_pattern_spec(rest, pl[5]) is Some));
        assert(!(pl[6].len() < nw.len() && match_pattern_spec(rest, pl[6]) is Some));
        assert(!(pl[7].len() < nw.len() && match_pattern_spec(rest, pl[7]) is Some));
        lemma_phrase_then_name(nw, seq![kw(SQLite3Keyword::OR), kw(SQLite3Keyword::REPLACE), kw(SQLite3Keyword::INTO)], 8);
    } else if ph == seq![SQLite3Keyword::UPDATE, SQLite3Keyword::OR, SQLite3Keyword::ROLLBACK, SQLite3Keyword::INTO] {
        assert(!(pl[0].len() < nw.len() && match_pattern_spec(rest, pl[0]) is Some));
        assert(!(pl[1].len() < nw.len() && match_pattern_spec(rest, pl[1]) is Some));
        assert(!(pl[2].len() < nw.len() && match_pattern_spec(rest, pl[2]) is Some));
        assert(!(pl[3].len() < nw.len() && match_pattern_spec(rest, pl[3]) is Some));
        assert(!(pl[4].len() < nw.len() && match_pattern_spec(rest, pl[4]) is Some));
        assert(!(pl[5].len() < nw.len() && match_pattern_spec(rest, pl[5]) is Some));
        assert(!(pl[6].len() < nw.len() && match_pattern_spec(rest, pl[6]) is Some));
        assert(!(pl[7].len() < nw.len() && match_pattern_spec(rest, pl[7]) is Some));
        assert(!(pl[8].len() < nw.len() && match_pattern_spec(rest, pl[8]) is Some));
        assert(!(pl[9].len() < nw.len() && match_pattern_spec(rest, pl[9]) is Some));
        lemma_phrase_then_name(nw, seq![kw(SQLite3Keyword::OR), kw(SQLite3Keyword::ROLLBACK), kw(SQLite3Keyword::INTO)], 10);
    }
}

/// The table named after a phrase that starts with `ALTER`.
proof fn lemma_alter_phrase(nw: Seq<SQLite3TokenView>, ph: Seq<SQLite3Keyword>)
    requires
        ph == seq![SQLite3Keyword::ALTER, SQLite3Keyword::TABLE],
        nw.len() > ph.len(),
        forall|j: int| 0 <= j < ph.len() ==> nw[j] == SQLite3TokenView::Keyword(#[trigger] ph[j]),
        nw[ph.len() as int] is Identifier,
    ensures
        ({
            let n = ph.len() as int;
            let name = nw[n]->Identifier_0;
            if nw.len() >= n + 3 && nw[n + 1] is Period && nw[n + 2] is Identifier {
                table_from(nw, 0) == Some(TableToBeModifiedView { schema: Some(name), table: nw[n + 2]->Identifier_0 })
            } else {
                table_from(nw, 0) == Some(TableToBeModifiedView { schema: None, table: name })
            }
        }),
{
    let rest = nw.skip(1);
    assert forall|j: int| 0 <= j < ph.len() implies nw[j] == SQLite3TokenView::Keyword(ph[j]) by {}
    assert forall|m: int| 0 <= m < rest.len() implies rest[m] == nw[m + 1] by {}
    let pl = pattern_list(SQLite3Keyword::ALTER);
    assert(pl =~~= seq![
        seq![kw(SQLite3Keyword::TABLE)] + seq![PatternItem::WordAsSchema, PatternItem::Period, PatternItem::WordAsTable],
        seq![kw(SQLite3Keyword::TABLE)] + seq![PatternItem::WordAsTable],
    ]);
    reveal_with_fuel(match_from, 4);
    if ph == seq![SQLite3Keyword::ALTER, SQLite3Keyword::TABLE] {
        lemma_phrase_then_name(nw, seq![kw(SQLite3Keyword::TABLE)], 0);
    }
}

/// A statement that creates a table or view, inserts or replaces into a
/// table, updates or alters one modifies that table: where its tokens,
/// whitespace aside, start with such a phrase and a name, the table to be
/// modified is that name, or, where the name is followed by `.` and another
/// name, that other name in the schema so named.
pub proof fn law_phrase_names_the_table(ts: Seq<WithZeroIndexedRange<SQLite3TokenView>>, ph: Seq<SQLite3Keyword>)
    requires
        modifying_phrase(ph),
        non_whitespace(ts).len() > ph.len(),
        forall|j: int| 0 <= j < ph.len() ==> non_whitespace(ts)[j] == SQLite3TokenView::Keyword(#[trigger] ph[j]),
        non_whitespace(ts)[ph.len() as int] is Identifier,
    ensures
        ({
            let nw = non_whitespace(ts);
            let n = ph.len() as int;
            let name = nw[n]->Identifier_0;
            if nw.len() >= n + 3 && nw[n + 1] is Period && nw[n + 2] is Identifier {
                table_to_be_modified(ts) == Some(
                    TableToBeModifiedView { schema: Some(name), table: nw[n + 2]->Identifier_0 },
                )
            } else {
                table_to_be_modified(ts) == Some(TableToBeModifiedView { schema: None, table: name })
            }
        }),
{
    let nw = non_whitespace(ts);
    if ph[0] == SQLite3Keyword::CREATE {
        lemma_create_phrase(nw, ph);
    } else if ph[0] == SQLite3Keyword::REPLACE {
        lemma_replace_phrase(nw, ph);
    } else if ph[0] == SQLite3Keyword::INSERT {
        lemma_insert_phrase(nw, ph);
    } else if ph[0] == SQLite3Keyword::UPDATE {
        lemma_update_phrase(nw, ph);
    } else if ph[0] == SQLite3Keyword::ALTER {
        lemma_alter_phrase(nw, ph);
    }
}

/// A trigger modifies no table of its own: where the tokens of a statement,
/// whitespace aside, start with `CREATE TRIGGER`, `CREATE TEMP TRIGGER` or
/// `CREATE TEMPORARY TRIGGER`, there is no table to be modified, whatever
/// tables the trigger's body inserts into or updates.
pub proof fn law_trigger_modifies_no_table(ts: Seq<WithZeroIndexedRange<SQLite3TokenView>>)
    requires
        non_whitespace(ts).len() >= 2,
        non_whitespace(ts)[0] == SQLite3TokenView::Keyword(SQLite3Keyword::CREATE),
        non_whitespace(ts)[1] == SQLite3TokenView::Keyword(SQLite3Keyword::TRIGGER) || (non_whitespace(ts).len()
            >= 3 && (non_whitespace(ts)[1] == SQLite3TokenView::Keyword(SQLite3Keyword::TEMP) || non_whitespace(ts)[1]
            == SQLite3TokenView::Keyword(SQLite3Keyword::TEMPORARY)) && non_whitespace(ts)[2]
            == SQLite3TokenView::Keyword(SQLite3Keyword::TRIGGER)),
    ensures
        table_to_be_modified(ts) is None,
{
    let nw = non_whitespace(ts);
    let rest = nw.skip(1);
    let pl = pattern_list(SQLite3Keyword::CREATE);
    assert(pl[0] == seq![kw(SQLite3Keyword::TRIGGER)]);
    assert(pl[1] == seq![kw(SQLite3Keyword::TEMP), kw(SQLite3Keyword::TRIGGER)]);
    assert(pl[2] == seq![kw(SQLite3Keyword::TEMPORARY), kw(SQLite3Keyword::TRIGGER)]);
    assert(rest[0] == nw[1]);
    if nw.len() >= 3 {
        assert(rest[1] == nw[2]);
    }
    reveal_with_fuel(match_from, 3);
    reveal_with_fuel(try_patterns, 3);
    assert(table_from(nw, 0) == match try_patterns(nw, 0, pl, 0) {
        Some(r) => r,
        None => table_from(nw, 1),
    });
    assert(try_patterns(nw, 0, pl, 0) == Some(None::<TableToBeModifiedView>));
}

// ---------------------------------------------------------------------------
// Implementation
// ---------------------------------------------------------------------------

fn copy_items(p: &Vec<PatternItem>) -> (r: Vec<PatternItem>)
    ensures
        r@ == p@,
{
    let mut r: Vec<PatternItem> = Vec::new();
    let mut i: usize = 0;
    while i < p.len()
        invariant
            i <= p@.len(),
            r@ == p@.subrange(0, i as int),
        decreases p@.len() - i,
    {
        r.push(p[i]);
        proof {
            assert(r@ =~= p@.subrange(0, i + 1));
        }
        i = i + 1;
    }
    proof {
        assert(p@.subrange(0, p@.len() as int) =~= p@);
    }
    r
}

fn push_items(out: &mut Vec<Vec<PatternItem>>, v: Vec<PatternItem>)
    ensures
        final(out)@.map_values(|v: Vec<PatternItem>| v@) == old(out)@.map_values(|v: Vec<PatternItem>| v@)
            .push(v@),
{
    let ghost before = out@.map_values(|v: Vec<PatternItem>| v@);
    let ghost vv = v@;
    out.push(v);
    proof {
        assert(out@.map_values(|v: Vec<PatternItem>| v@) =~= before.push(vv));
    }
}

fn then_table_exec(p: Vec<PatternItem>, out: &mut Vec<Vec<PatternItem>>)
    ensures
        final(out)@.map_values(|v: Vec<PatternItem>| v@) == old(out)@.map_values(|v: Vec<PatternItem>| v@)
            + then_table(p@),
{
    let ghost pv = p@;
    let mut a = copy_items(&p);
    a.push(PatternItem::WordAsSchema);
    a.push(PatternItem::Period);
    a.push(PatternItem::WordAsTable);
    let mut b = p;
    b.push(PatternItem::WordAsTable);
    proof {
        assert(a@ =~= pv + seq![PatternItem::WordAsSchema, PatternItem::Period, PatternItem::WordAsTable]);
        assert(b@ =~= pv + seq![PatternItem::WordAsTable]);
    }
    let ghost before = out@.map_values(|v: Vec<PatternItem>| v@);
    let ghost av = a@;
    let ghost bv = b@;
    out.push(a);
    out.push(b);
    proof {
        assert(out@.map_values(|v: Vec<PatternItem>| v@) =~= before.push(av).push(bv));
    }
}

fn or_into_exec(out: &mut Vec<Vec<PatternItem>>)
    ensures
        final(out)@.map_values(|v: Vec<PatternItem>| v@) == old(out)@.map_values(|v: Vec<PatternItem>| v@)
            + or_into_patterns(),
{
    let ghost start = out@.map_values(|v: Vec<PatternItem>| v@);
    {
            let v = vec![PatternItem::Keyword(SQLite3Keyword::OR), PatternItem::Keyword(SQLite3Keyword::ABORT), PatternItem::Keyword(SQLite3Keyword::INTO)];
            proof {
                assert(v@ =~= seq![kw(SQLite3Keyword::OR), kw(SQLite3Keyword::ABORT), kw(SQLite3Keyword::INTO)]);
            }
            then_table_exec(v, out);
        }
    {
            let v = vec![PatternItem::Keyword(SQLite3Keyword::OR), PatternItem::Keyword(SQLite3Keyword::FAIL), PatternItem::Keyword(SQLite3Keyword::INTO)];
            proof {
                assert(v@ =~= seq![kw(SQLite3Keyword::OR), kw(SQLite3Keyword::FAIL), kw(SQLite3Keyword::INTO)]);
            }
            then_table_exec(v, out);
        }
    {
            let v = vec![PatternItem::Keyword(SQLite3Keyword::OR), PatternItem::Keyword(SQLite3Keyword::IGNORE), PatternItem::Keyword(SQLite3Keyword::INTO)];
            proof {
                assert(v@ =~= seq![kw(SQLite3Keyword::OR), kw(SQLite3Keyword::IGNORE), kw(SQLite3Keyword::INTO)]);
            }
            then_table_exec(v, out);
        }
    {
            let v = vec![PatternItem::Keyword(SQLite3Keyword::OR), PatternItem::Keyword(SQLite3Keyword::REPLACE), PatternItem::Keyword(SQLite3Keyword::INTO)];
            proof {
                assert(v@ =~= seq![kw(SQLite3Keyword::OR), kw(SQLite3Keyword::REPLACE), kw(SQLite3Keyword::INTO)]);
            }
            then_table_exec(v, out);
        }
    {
            let v = vec![PatternItem::Keyword(SQLite3Keyword::OR), PatternItem::Keyword(SQLite3Keyword::ROLLBACK), PatternItem::Keyword(SQLite3Keyword::INTO)];
            proof {
                assert(v@ =~= seq![kw(SQLite3Keyword::OR), kw(SQLite3Keyword::ROLLBACK), kw(SQLite3Keyword::INTO)]);
            }
            then_table_exec(v, out);
        }
    proof {
        assert(out@.map_values(|v: Vec<PatternItem>| v@) =~= start + or_into_patterns());
    }
}

/// The patterns tried, in order, after the keyword `k`.
fn patterns_for(k: SQLite3Keyword) -> (r: Vec<Vec<PatternItem>>)
    ensures
        r@.map_values(|v: Vec<PatternItem>| v@) == pattern_list(k),
{
    let mut out: Vec<Vec<PatternItem>> = Vec::new();
    proof {
        assert(out@.map_values(|v: Vec<PatternItem>| v@) =~= seq![]);
    }
    if k == SQLite3Keyword::CREATE {
        let a = vec![PatternItem::Keyword(SQLite3Keyword::TRIGGER)];
        let b = vec![PatternItem::Keyword(SQLite3Keyword::TEMP), PatternItem::Keyword(SQLite3Keyword::TRIGGER)];
        let c = vec![PatternItem::Keyword(SQLite3Keyword::TEMPORARY), PatternItem::Keyword(SQLite3Keyword::TRIGGER)];
        proof {
            assert(a@ =~= seq![kw(SQLite3Keyword::TRIGGER)]);
            assert(b@ =~= seq![kw(SQLite3Keyword::TEMP), kw(SQLite3Keyword::TRIGGER)]);
            assert(c@ =~= seq![kw(SQLite3Keyword::TEMPORARY), kw(SQLite3Keyword::TRIGGER)]);
        }
        push_items(&mut out, a);
        push_items(&mut out, b);
        push_items(&mut out, c);
        let ghost s0 = out@.map_values(|v: Vec<PatternItem>| v@);
        proof {
            assert(s0 =~= seq![
                seq![kw(SQLite3Keyword::TRIGGER)],
                seq![kw(SQLite3Keyword::TEMP), kw(SQLite3Keyword::TRIGGER)],
                seq![kw(SQLite3Keyword::TEMPORARY), kw(SQLite3Keyword::TRIGGER)],
            ]);
        }
        let t1 = vec![PatternItem::Keyword(SQLite3Keyword::TABLE)];
        proof {
            assert(t1@ =~= seq![kw(SQLite3Keyword::TABLE)]);
        }
        then_table_exec(t1, &mut out);
        {
            let v = vec![PatternItem::Keyword(SQLite3Keyword::TABLE), PatternItem::Keyword(SQLite3Keyword::IF), PatternItem::Keyword(SQLite3Keyword::NOT), PatternItem::Keyword(SQLite3Keyword::EXISTS)];
            proof {
                assert(v@ =~= seq![kw(SQLite3Keyword::TABLE), kw(SQLite3Keyword::IF), kw(SQLite3Keyword::NOT), kw(SQLite3Keyword::EXISTS)]);
            }
            then_table_exec(v, &mut out);
        }
        {
            let v = vec![PatternItem::Keyword(SQLite3Keyword::VIEW)];
            proof {
                assert(v@ =~= seq![kw(SQLite3Keyword::VIEW)]);
            }
            then_table_exec(v, &mut out);
        }
        {
            let v = vec![PatternItem::Keyword(SQLite3Keyword::VIEW), PatternItem::Keyword(SQLite3Keyword::IF), PatternItem::Keyword(SQLite3Keyword::NOT), PatternItem::Keyword(SQLite3Keyword::EXISTS)];
            proof {
                assert(v@ =~= seq![kw(SQLite3Keyword::VIEW), kw(SQLite3Keyword::IF), kw(SQLite3Keyword::NOT), kw(SQLite3Keyword::EXISTS)]);
            }
            then_table_exec(v, &mut out);
        }
        {
            let v = vec![PatternItem::Keyword(SQLite3Keyword::VIRTUAL), PatternItem::Keyword(SQLite3Keyword::TABLE)];
            proof {
                assert(v@ =~= seq![kw(SQLite3Keyword::VIRTUAL), kw(SQLite3Keyword::TABLE)]);
            }
            then_table_exec(v, &mut out);
        }
        {
            let v = vec![PatternItem::Keyword(SQLite3Keyword::VIRTUAL), PatternItem::Keyword(SQLite3Keyword::TABLE), PatternItem::Keyword(SQLite3Keyword::IF), PatternItem::Keyword(SQLite3Keyword::NOT), PatternItem::Keyword(SQLite3Keyword::EXISTS)];
            proof {
                assert(v@ =~= seq![kw(SQLite3Keyword::VIRTUAL), kw(SQLite3Keyword::TABLE), kw(SQLite3Keyword::IF), kw(SQLite3Keyword::NOT), kw(SQLite3Keyword::EXISTS)]);
            }
            then_table_exec(v, &mut out);
        }
    } else if k == SQLite3Keyword::REPLACE {
        {
            let v = vec![PatternItem::Keyword(SQLite3Keyword::INTO)];
            proof {
                assert(v@ =~= seq![kw(SQLite3Keyword::INTO)]);
            }
            then_table_exec(v, &mut out);
        }
    } else if k == SQLite3Keyword::INSERT {
        {
            let v = vec![PatternItem::Keyword(SQLite3Keyword::INTO)];
            proof {
                assert(v@ =~= seq![kw(SQLite3Keyword::INTO)]);
            }
            then_table_exec(v, &mut out);
        }
        or_into_exec(&mut out);
    } else if k == SQLite3Keyword::UPDATE {
        then_table_exec(Vec::new(), &mut out);
        or_into_exec(&mut out);
    } else if k == SQLite3Keyword::ALTER {
        {
            let v = vec![PatternItem::Keyword(SQLite3Keyword::TABLE)];
            proof {
                assert(v@ =~= seq![kw(SQLite3Keyword::TABLE)]);
            }
            then_table_exec(v, &mut out);
        }
    }
    proof {
        assert(out@.map_values(|v: Vec<PatternItem>| v@) =~= pattern_list(k));
    }
    out
}

pub open spec fn ref_token_values<'a>(v: Seq<&'a WithZeroIndexedRange<SQLite3Token>>) -> Seq<SQLite3TokenView> {
    v.map_values(|t: &'a WithZeroIndexedRange<SQLite3Token>| t.value@)
}

/// Matches `pattern` against `tokens[from..]`: `None` if it does not
/// match, `Some(None)` if it matches without a table, `Some(Some(t))`
/// otherwise.
fn match_pattern(tokens: &Vec<&WithZeroIndexedRange<SQLite3Token>>, from: usize, pattern: &Vec<PatternItem>) -> (r:
    Option<Option<TableToBeModified>>)
    requires
        from <= tokens@.len(),
    ensures
        match match_pattern_spec(ref_token_values(tokens@).skip(from as int), pattern@) {
            None => r is None,
            Some(x) => r is Some && opt_table_view(r->0) == x,
        },
{
    let ghost ts = ref_token_values(tokens@).skip(from as int);
    let mut schema: Option<String> = None;
    let mut table: Option<String> = None;
    let n = tokens.len();
    if pattern.len() > n - from {
        return None;
    }
    let mut j: usize = 0;
    while j < pattern.len()
        invariant
            j <= pattern@.len(),
            pattern@.len() <= ts.len(),
            from <= tokens@.len(),
            ts == ref_token_values(tokens@).skip(from as int),
            ts.len() == tokens@.len() - from,
            n == tokens@.len(),
            match_from(ts, pattern@, j as int, opt_str_view(schema), opt_str_view(table)) == match_from(
                ts,
                pattern@,
                0,
                None,
                None,
            ),
        decreases pattern@.len() - j,
    {
        proof {
            assert(from + j < tokens@.len());
        }
        let token = &tokens[from + j].value;
        proof {
            assert(ts[j as int] == token@);
        }
        match pattern[j] {
            PatternItem::Keyword(expected) => {
                let ok = match token {
                    SQLite3Token::Keyword(k) => *k == expected,
                    _ => false,
                };
                if !ok {
                    return None;
                }
            },
            PatternItem::Period => {
                if !matches!(token, SQLite3Token::Period) {
                    return None;
                }
            },
            PatternItem::WordAsSchema => {
                match token {
                    SQLite3Token::Identifier(s, _) => {
                        schema = Some(s.clone());
                    },
                    _ => {
                        return None;
                    },
                }
            },
            PatternItem::WordAsTable => {
                match token {
                    SQLite3Token::Identifier(s, _) => {
                        table = Some(s.clone());
                    },
                    _ => {
                        return None;
                    },
                }
            },
        }
        j = j + 1;
    }
    match table {
        Some(t) => Some(Some(TableToBeModified { schema, table: t })),
        None => Some(None),
    }
}

/// The table that a statement creates, inserts into, updates or alters,
/// from its real tokens; `None` for other statements and for
/// `CREATE TRIGGER`.
pub fn get_table_to_be_modified(real_tokens: &[WithZeroIndexedRange<SQLite3Token>]) -> (r: Option<
    TableToBeModified,
>)
    ensures
        opt_table_view(r) == table_to_be_modified(token_views(real_tokens@)),
{
    let ghost tv = token_views(real_tokens@);
    let mut nw: Vec<&WithZeroIndexedRange<SQLite3Token>> = Vec::new();
    let mut i: usize = 0;
    proof {
        assert(tv.subrange(0, 0) =~= seq![]);
        assert(ref_token_values(nw@) =~= seq![]);
    }
    while i < real_tokens.len()
        invariant
            i <= real_tokens@.len(),
            tv == token_views(real_tokens@),
            ref_token_values(nw@) == non_whitespace(tv.subrange(0, i as int)),
        decreases real_tokens@.len() - i,
    {
        let t = &real_tokens[i];
        proof {
            assert(tv.subrange(0, i + 1).drop_last() =~= tv.subrange(0, i as int));
            assert(tv.subrange(0, i + 1).last() == t@);
        }
        if !t.value.is_whitespace() {
            let ghost before = ref_token_values(nw@);
            nw.push(t);
            proof {
                assert(ref_token_values(nw@) =~= before.push(t.value@));
            }
        }
        i = i + 1;
    }
    proof {
        assert(tv.subrange(0, tv.len() as int) =~= tv);
    }
    let ghost nwv = ref_token_values(nw@);
    let mut i: usize = 0;
    while i < nw.len()
        invariant
            i <= nw@.len(),
            nwv == ref_token_values(nw@),
            nwv == non_whitespace(tv),
            tv == token_views(real_tokens@),
            table_from(nwv, i as int) == table_from(nwv, 0),
        decreases nw@.len() - i,
    {
        proof {
            assert(nwv[i as int] == nw@[i as int].value@);
        }
        match &nw[i].value {
            SQLite3Token::Keyword(k) => {
                let patterns = patterns_for(*k);
                let ghost pats = patterns@.map_values(|v: Vec<PatternItem>| v@);
                let mut p: usize = 0;
                while p < patterns.len()
                    invariant
                        p <= patterns@.len(),
                        i < nw@.len(),
                        nwv == ref_token_values(nw@),
                        pats == patterns@.map_values(|v: Vec<PatternItem>| v@),
                        pats == pattern_list(*k),
                        nwv == non_whitespace(tv),
                        tv == token_views(real_tokens@),
                        table_from(nwv, i as int) == table_from(nwv, 0),
                        nwv[i as int] == SQLite3TokenView::Keyword(*k),
                        try_patterns(nwv, i as int, pats, p as int) == try_patterns(nwv, i as int, pats, 0),
                    decreases patterns@.len() - p,
                {
                    let pattern = &patterns[p];
                    proof {
                        assert(pats[p as int] == pattern@);
                    }
                    if pattern.len() < nw.len() - i {
                        match match_pattern(&nw, i + 1, pattern) {
                            Some(result) => {
                                proof {
                                    assert(nwv.skip(i + 1) == ref_token_values(nw@).skip(i + 1));
                                    assert(try_patterns(nwv, i as int, pats, p as int) == Some(opt_table_view(result)));
                                    assert(pats == pattern_list(*k));
                                    assert(nwv[i as int] == SQLite3TokenView::Keyword(*k));
                                    assert(table_from(nwv, i as int) == opt_table_view(result));
                                }
                                return result;
                            },
                            None => {},
                        }
                    }
                    p = p + 1;
                }
            },
            _ => {},
        }
        i = i + 1;
    }
    None
}

} // verus!
