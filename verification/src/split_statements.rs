//! Splitting a script into statements (at semicolons outside
//! `BEGIN ... END` and `CASE ... END`) and dot-commands.
use vstd::prelude::*;

use crate::dot_command::{DotCommand, DotCommandView, dot_command};
use crate::location::{ZeroIndexedLocation, loc_le, loc_lt};
use crate::range::{
    WithZeroIndexedRange, ZeroIndexedRange, join_lines, lemma_join_lines_concat, lemma_range_text_split, range_fits,
    range_text, slice_chars,
};
use crate::bridge::{sqlparser_tokens, str_debug, str_debug_text};
use crate::text::{
    append_chars, lemma_newline_index_bound, lines_of, newline_index, str_chars, str_views, strip_cr, string_from_chars,
    text_lines,
};
use crate::token::{SQLite3Keyword, SQLite3Token, SQLite3TokenView};
use crate::tokenize::{
    ZeroIndexedTokenizerError, eof_location, law_tokens_tile_the_text, law_tokens_within_lines, raw_tokens_placed,
    semicolons_cover_text, token_views, tokenize_spec, tokenize_with_range_location, tokens_tile, tokens_within_lines,
};

verus! {

/// A statement of a script, with its text and its tokens.
///
/// ```plaintext
/// real_text.start  real_text.end
///           v        v
///        "  SELECT 1;  "
///         ^            ^
/// all_text.start   all_text.end
/// ```
#[derive(Clone, Debug, Eq, PartialEq)]
pub struct SingleStatement {
    pub all_text: WithZeroIndexedRange<String>,
    pub real_text: WithZeroIndexedRange<String>,
    pub real_tokens: Vec<WithZeroIndexedRange<SQLite3Token>>,
}

pub struct SingleStatementView {
    pub all_text: WithZeroIndexedRange<Seq<char>>,
    pub real_text: WithZeroIndexedRange<Seq<char>>,
    pub real_tokens: Seq<WithZeroIndexedRange<SQLite3TokenView>>,
}

impl View for SingleStatement {
    type V = SingleStatementView;

    open spec fn view(&self) -> SingleStatementView {
        SingleStatementView {
            all_text: self.all_text@,
            real_text: self.real_text@,
            real_tokens: token_views(self.real_tokens@),
        }
    }
}

pub open spec fn statement_views(v: Seq<SingleStatement>) -> Seq<SingleStatementView> {
    v.map_values(|s: SingleStatement| s@)
}

pub open spec fn dot_command_views(v: Seq<DotCommand>) -> Seq<DotCommandView> {
    v.map_values(|d: DotCommand| d@)
}

// ---------------------------------------------------------------------------
// Specification
// ---------------------------------------------------------------------------

/// The first index in `a..b` of a token that is not whitespace, or `b`.
pub open spec fn first_non_ws(ts: Seq<WithZeroIndexedRange<SQLite3TokenView>>, a: int, b: int) -> int
    decreases b - a,
{
    if a >= b {
        b
    } else if !(ts[a].value is Whitespace) {
        a
    } else {
        first_non_ws(ts, a + 1, b)
    }
}

/// The last index in `a..b` of a token that is not whitespace, or `a - 1`.
pub open spec fn last_non_ws(ts: Seq<WithZeroIndexedRange<SQLite3TokenView>>, a: int, b: int) -> int
    decreases b - a,
{
    if a >= b {
        a - 1
    } else if !(ts[b - 1].value is Whitespace) {
        b - 1
    } else {
        last_non_ws(ts, a, b - 1)
    }
}

pub open spec fn text_at(lines: Seq<Seq<char>>, r: ZeroIndexedRange) -> WithZeroIndexedRange<
    Seq<char>,
> {
    WithZeroIndexedRange { value: range_text(lines, r), range: r }
}

/// The statement made of tokens `a..b` of `ts`, over `range`: its real
/// text runs from its first to its last token that is not whitespace.
pub open spec fn single_statement(
    lines: Seq<Seq<char>>,
    ts: Seq<WithZeroIndexedRange<SQLite3TokenView>>,
    a: int,
    b: int,
    range: ZeroIndexedRange,
) -> SingleStatementView {
    let rs = first_non_ws(ts, a, b);
    let re = last_non_ws(ts, a, b);
    if rs < b {
        let core_range = ZeroIndexedRange { start: ts[rs].range.start, end: ts[re].range.end };
        SingleStatementView {
            all_text: text_at(lines, range),
            real_text: text_at(lines, core_range),
            real_tokens: ts.subrange(rs, re + 1),
        }
    } else {
        SingleStatementView {
            all_text: text_at(lines, range),
            real_text: text_at(lines, range),
            real_tokens: ts.subrange(a, b),
        }
    }
}

/// The state of the scan for dot-commands.
pub struct DotScan {
    /// 0: between statements, 1: in a statement, 2: in a dot-command.
    pub mode: u8,
    pub last_line: usize,
    pub dots: Seq<DotCommandView>,
    /// The indices of the tokens that are not part of a dot-command.
    pub kept: Seq<int>,
}

pub open spec fn dot_scan_step(
    lines: Seq<Seq<char>>,
    st: DotScan,
    t: WithZeroIndexedRange<SQLite3TokenView>,
    i: int,
) -> DotScan {
    let (mode, last_line, dots) = if st.mode == 0 {
        if t.value is Period && t.range.start.column == 0 {
            (
                2u8,
                t.range.start.line,
                st.dots.push(dot_command(t.range.start.line, lines[t.range.start.line as int])),
            )
        } else if !(t.value is Whitespace) {
            (1u8, st.last_line, st.dots)
        } else {
            (0u8, st.last_line, st.dots)
        }
    } else if st.mode == 2 {
        if t.range.end.line > st.last_line {
            (0u8, st.last_line, st.dots)
        } else {
            (2u8, st.last_line, st.dots)
        }
    } else {
        if t.value is SemiColon {
            (0u8, st.last_line, st.dots)
        } else {
            (1u8, st.last_line, st.dots)
        }
    };
    DotScan {
        mode,
        last_line,
        dots,
        kept: if mode != 2 {
            st.kept.push(i)
        } else {
            st.kept
        },
    }
}

/// The scan for dot-commands over the first `n` tokens.
pub open spec fn dot_scan(
    lines: Seq<Seq<char>>,
    ts: Seq<WithZeroIndexedRange<SQLite3TokenView>>,
    n: nat,
) -> DotScan
    decreases n,
{
    if n == 0 || n > ts.len() {
        DotScan { mode: 0, last_line: 0, dots: seq![], kept: seq![] }
    } else {
        dot_scan_step(lines, dot_scan(lines, ts, (n - 1) as nat), ts[n - 1], n - 1)
    }
}

/// The tokens that are not part of a dot-command.
pub open spec fn kept_tokens(
    lines: Seq<Seq<char>>,
    ts: Seq<WithZeroIndexedRange<SQLite3TokenView>>,
) -> Seq<WithZeroIndexedRange<SQLite3TokenView>> {
    dot_scan(lines, ts, ts.len()).kept.map_values(|i: int| ts[i])
}

/// The state of the split at semicolons.
pub struct SplitScan {
    pub depth: nat,
    pub start: ZeroIndexedLocation,
    pub first: int,
    pub stmts: Seq<SingleStatementView>,
}

pub open spec fn opens_block(v: SQLite3TokenView) -> bool {
    v == SQLite3TokenView::Keyword(SQLite3Keyword::BEGIN) || v == SQLite3TokenView::Keyword(
        SQLite3Keyword::CASE,
    )
}

pub open spec fn closes_block(v: SQLite3TokenView) -> bool {
    v == SQLite3TokenView::Keyword(SQLite3Keyword::END) || v == SQLite3TokenView::Keyword(
        SQLite3Keyword::COMMIT,
    ) || v == SQLite3TokenView::Keyword(SQLite3Keyword::ROLLBACK)
}

pub open spec fn split_step(
    lines: Seq<Seq<char>>,
    kt: Seq<WithZeroIndexedRange<SQLite3TokenView>>,
    st: SplitScan,
    i: int,
) -> SplitScan {
    let t = kt[i];
    if opens_block(t.value) {
        SplitScan { depth: st.depth + 1, ..st }
    } else if closes_block(t.value) {
        SplitScan {
            depth: if st.depth > 0 {
                (st.depth - 1) as nat
            } else {
                0
            },
            ..st
        }
    } else if t.value is SemiColon && st.depth == 0 {
        SplitScan {
            depth: 0,
            start: t.range.end,
            first: i + 1,
            stmts: st.stmts.push(
                single_statement(
                    lines,
                    kt,
                    st.first,
                    i + 1,
                    ZeroIndexedRange { start: st.start, end: t.range.end },
                ),
            ),
        }
    } else {
        st
    }
}

pub open spec fn split_scan(
    lines: Seq<Seq<char>>,
    kt: Seq<WithZeroIndexedRange<SQLite3TokenView>>,
    n: nat,
) -> SplitScan
    decreases n,
{
    if n == 0 || n > kt.len() {
        SplitScan {
            depth: 0,
            start: ZeroIndexedLocation { line: 0, column: 0 },
            first: 0,
            stmts: seq![],
        }
    } else {
        split_step(lines, kt, split_scan(lines, kt, (n - 1) as nat), n - 1)
    }
}

/// The statements of the kept tokens `kt`: those ended by semicolons, then
/// the rest if it is not empty.
pub open spec fn statements_of(
    lines: Seq<Seq<char>>,
    kt: Seq<WithZeroIndexedRange<SQLite3TokenView>>,
) -> Seq<SingleStatementView> {
    let st = split_scan(lines, kt, kt.len());
    if kt.len() > 0 && st.start != kt.last().range.end {
        st.stmts.push(
            single_statement(
                lines,
                kt,
                st.first,
                kt.len() as int,
                ZeroIndexedRange { start: st.start, end: kt.last().range.end },
            ),
        )
    } else {
        st.stmts
    }
}

/// The statements and dot-commands of a script with lines `lines` and
/// tokens `ts`.
pub open spec fn split_spec(
    lines: Seq<Seq<char>>,
    ts: Seq<WithZeroIndexedRange<SQLite3TokenView>>,
) -> (Seq<SingleStatementView>, Seq<DotCommandView>) {
    (statements_of(lines, kept_tokens(lines, ts)), dot_scan(lines, ts, ts.len()).dots)
}

/// The tokens lie within `lines` one after another from 0:0, each starting
/// within its line, and a `.` at the start of a line starts that line.
pub open spec fn tokens_fit(
    lines: Seq<Seq<char>>,
    ts: Seq<WithZeroIndexedRange<SQLite3TokenView>>,
) -> bool {
    &&& ts.len() > 0 ==> ts[0].range.start == (ZeroIndexedLocation { line: 0, column: 0 })
    &&& forall|i: int|
        0 <= i < ts.len() ==> range_fits(lines, #[trigger] ts[i].range) && ts[i].range.start.column
            <= lines[ts[i].range.start.line as int].len()
    &&& forall|i: int|
        0 <= i < ts.len() - 1 ==> #[trigger] ts[i].range.end == ts[i + 1].range.start
    &&& forall|i: int|
        0 <= i < ts.len() && #[trigger] ts[i].value is Period && ts[i].range.start.column == 0
            ==> lines[ts[i].range.start.line as int].len() > 0
            && lines[ts[i].range.start.line as int][0] == '.'
}

/// The error reported for tokens that do not lie within the text.
pub open spec fn misplaced_message() -> Seq<char> {
    seq!['m', 'i', 's', 'p', 'l', 'a', 'c', 'e', 'd', ' ', 't', 'o', 'k', 'e', 'n']
}

/// What `split_sqlite_statements` gives for `sql`.
pub open spec fn split_result(sql: Seq<char>) -> Result<
    (Seq<SingleStatementView>, Seq<DotCommandView>),
    (ZeroIndexedLocation, Seq<char>),
> {
    match tokenize_spec(sql) {
        Err(e) => Err(e),
        Ok(ts) => if tokens_fit(lines_of(sql), ts) {
            Ok(split_spec(lines_of(sql), ts))
        } else {
            Err((ZeroIndexedLocation { line: 0, column: 0 }, misplaced_message()))
        },
    }
}

// ---------------------------------------------------------------------------
// Lemmas
// ---------------------------------------------------------------------------

pub proof fn lemma_chain_le(
    lines: Seq<Seq<char>>,
    ts: Seq<WithZeroIndexedRange<SQLite3TokenView>>,
    i: int,
    j: int,
)
    requires
        tokens_fit(lines, ts),
        0 <= i <= j < ts.len(),
    ensures
        loc_le(ts[i].range.start, ts[j].range.end),
    decreases j - i,
{
    assert(range_fits(lines, ts[j].range));
    if i < j {
        lemma_chain_le(lines, ts, i, j - 1);
        assert(ts[j - 1].range.end == ts[j].range.start);
    }
}

/// Any range from the start of a token to the end of the same or a later
/// token can be cut out of the text.
pub proof fn lemma_fits_between(
    lines: Seq<Seq<char>>,
    ts: Seq<WithZeroIndexedRange<SQLite3TokenView>>,
    i: int,
    j: int,
)
    requires
        tokens_fit(lines, ts),
        0 <= i <= j < ts.len(),
    ensures
        range_fits(lines, ZeroIndexedRange { start: ts[i].range.start, end: ts[j].range.end }),
{
    lemma_chain_le(lines, ts, i, j);
    assert(range_fits(lines, ts[i].range));
    assert(range_fits(lines, ts[j].range));
}

pub proof fn lemma_first_non_ws(ts: Seq<WithZeroIndexedRange<SQLite3TokenView>>, a: int, b: int)
    requires
        a <= b,
    ensures
        a <= first_non_ws(ts, a, b) <= b,
        first_non_ws(ts, a, b) < b ==> !(ts[first_non_ws(ts, a, b)].value is Whitespace),
        forall|k: int| a <= k < first_non_ws(ts, a, b) ==> ts[k].value is Whitespace,
    decreases b - a,
{
    if a < b && ts[a].value is Whitespace {
        lemma_first_non_ws(ts, a + 1, b);
    }
}

pub proof fn lemma_last_non_ws(ts: Seq<WithZeroIndexedRange<SQLite3TokenView>>, a: int, b: int)
    requires
        a <= b,
    ensures
        a - 1 <= last_non_ws(ts, a, b) < b,
        last_non_ws(ts, a, b) >= a ==> !(ts[last_non_ws(ts, a, b)].value is Whitespace),
        forall|k: int| last_non_ws(ts, a, b) < k < b ==> ts[k].value is Whitespace,
    decreases b - a,
{
    if a < b && ts[b - 1].value is Whitespace {
        lemma_last_non_ws(ts, a, b - 1);
    }
}

/// The statements found so far cover the text from 0:0 to where the next
/// one starts, one after another.
pub open spec fn tiles_until(ss: Seq<SingleStatementView>, end: ZeroIndexedLocation) -> bool {
    &&& ss.len() == 0 ==> end == (ZeroIndexedLocation { line: 0, column: 0 })
    &&& ss.len() > 0 ==> ss[0].all_text.range.start == (ZeroIndexedLocation { line: 0, column: 0 })
    &&& ss.len() > 0 ==> ss.last().all_text.range.end == end
    &&& forall|i: int|
        0 <= i < ss.len() - 1 ==> (#[trigger] ss[i]).all_text.range.end == ss[i + 1].all_text.range.start
}

proof fn lemma_tiles_push(ss: Seq<SingleStatementView>, end: ZeroIndexedLocation, s: SingleStatementView)
    requires
        tiles_until(ss, end),
        s.all_text.range.start == end,
    ensures
        tiles_until(ss.push(s), s.all_text.range.end),
{
    let t = ss.push(s);
    assert forall|i: int| 0 <= i < t.len() - 1 implies (#[trigger] t[i]).all_text.range.end
        == t[i + 1].all_text.range.start by {
        if i < ss.len() - 1 {
            assert(t[i] == ss[i] && t[i + 1] == ss[i + 1]);
        } else {
            assert(t[i] == ss.last() && t[i + 1] == s);
        }
    }
}

proof fn lemma_split_scan_tiles(
    lines: Seq<Seq<char>>,
    kt: Seq<WithZeroIndexedRange<SQLite3TokenView>>,
    n: nat,
)
    ensures
        tiles_until(split_scan(lines, kt, n).stmts, split_scan(lines, kt, n).start),
    decreases n,
{
    if n > 0 && n <= kt.len() {
        lemma_split_scan_tiles(lines, kt, (n - 1) as nat);
        let st = split_scan(lines, kt, (n - 1) as nat);
        let i = n - 1;
        let t = kt[i];
        if !opens_block(t.value) && !closes_block(t.value) && t.value is SemiColon && st.depth == 0 {
            lemma_tiles_push(
                st.stmts,
                st.start,
                single_statement(lines, kt, st.first, i + 1, ZeroIndexedRange { start: st.start, end: t.range.end }),
            );
        }
    }
}

/// The statements of a script follow one another without gap or overlap:
/// the first starts at 0:0, and each starts where the one before ends.
pub proof fn law_statements_tile(sql: Seq<char>)
    ensures
        split_result(sql) matches Ok((ss, _)) ==> {
            &&& ss.len() > 0 ==> ss[0].all_text.range.start == (ZeroIndexedLocation { line: 0, column: 0 })
            &&& forall|i: int|
                0 <= i < ss.len() - 1 ==> (#[trigger] ss[i]).all_text.range.end
                    == ss[i + 1].all_text.range.start
        },
{
    if let Ok(ts) = tokenize_spec(sql) {
        let lines = lines_of(sql);
        let kt = kept_tokens(lines, ts);
        let st = split_scan(lines, kt, kt.len());
        lemma_split_scan_tiles(lines, kt, kt.len());
        if kt.len() > 0 && st.start != kt.last().range.end {
            lemma_tiles_push(
                st.stmts,
                st.start,
                single_statement(
                    lines,
                    kt,
                    st.first,
                    kt.len() as int,
                    ZeroIndexedRange { start: st.start, end: kt.last().range.end },
                ),
            );
        }
    }
}

proof fn lemma_semicolon_statement(
    lines: Seq<Seq<char>>,
    kt: Seq<WithZeroIndexedRange<SQLite3TokenView>>,
    first: int,
    i: int,
    range: ZeroIndexedRange,
)
    requires
        0 <= first <= i < kt.len(),
        kt[i].value is SemiColon,
    ensures
        ({
            let s = single_statement(lines, kt, first, i + 1, range);
            &&& s.real_tokens.len() > 0
            &&& s.real_tokens.last() == kt[i]
        }),
{
    lemma_first_non_ws(kt, first, i + 1);
    let rs = first_non_ws(kt, first, i + 1);
    if rs > i {
        assert(kt[i].value is Whitespace);
    }
    assert(last_non_ws(kt, first, i + 1) == i);
}

proof fn lemma_scan_semicolons(lines: Seq<Seq<char>>, kt: Seq<WithZeroIndexedRange<SQLite3TokenView>>, n: nat)
    ensures
        0 <= split_scan(lines, kt, n).first <= n,
        forall|j: int|
            0 <= j < split_scan(lines, kt, n).stmts.len() ==> (#[trigger] split_scan(lines, kt, n).stmts[j]).real_tokens.len()
                > 0 && split_scan(lines, kt, n).stmts[j].real_tokens.last().value is SemiColon,
    decreases n,
{
    if n > 0 && n <= kt.len() {
        lemma_scan_semicolons(lines, kt, (n - 1) as nat);
        let st = split_scan(lines, kt, (n - 1) as nat);
        let i = n - 1;
        let t = kt[i];
        if !opens_block(t.value) && !closes_block(t.value) && t.value is SemiColon && st.depth == 0 {
            let range = ZeroIndexedRange { start: st.start, end: t.range.end };
            lemma_semicolon_statement(lines, kt, st.first, i, range);
            let ns = st.stmts.push(single_statement(lines, kt, st.first, i + 1, range));
            assert(split_scan(lines, kt, n).stmts == ns);
            assert forall|j: int| 0 <= j < ns.len() implies (#[trigger] ns[j]).real_tokens.len() > 0
                && ns[j].real_tokens.last().value is SemiColon by {
                if j < st.stmts.len() {
                    assert(ns[j] == st.stmts[j]);
                }
            }
        }
    }
}

/// What splitting gives when the script does not tokenize: the tokenizer's
/// error, unchanged. A script that tokenizes fails only when its tokens do
/// not lie within its lines.
pub proof fn law_split_error_is_tokenizer_error(sql: Seq<char>)
    ensures
        tokenize_spec(sql) matches Err(e) ==> split_result(sql) == Err::<
            (Seq<SingleStatementView>, Seq<DotCommandView>),
            (ZeroIndexedLocation, Seq<char>),
        >(e),
        tokenize_spec(sql) matches Ok(ts) ==> (split_result(sql) is Err <==> !tokens_fit(lines_of(sql), ts)),
{
}

/// Every statement but the last ends with the semicolon that ends it: its
/// real tokens are not empty and the last one is `;`.
pub proof fn law_statements_end_with_semicolons(sql: Seq<char>)
    ensures
        split_result(sql) matches Ok((ss, _)) ==> forall|i: int|
            0 <= i < ss.len() - 1 ==> (#[trigger] ss[i]).real_tokens.len() > 0
                && ss[i].real_tokens.last().value is SemiColon,
{
    if let Ok(ts) = tokenize_spec(sql) {
        let lines = lines_of(sql);
        let kt = kept_tokens(lines, ts);
        let st = split_scan(lines, kt, kt.len());
        lemma_scan_semicolons(lines, kt, kt.len());
        if tokens_fit(lines, ts) {
            let ss = statements_of(lines, kt);
            assert forall|i: int| 0 <= i < ss.len() - 1 implies (#[trigger] ss[i]).real_tokens.len() > 0
                && ss[i].real_tokens.last().value is SemiColon by {
                assert(ss[i] == st.stmts[i]);
            }
        }
    }
}

/// `BEGIN`, `CASE`, `END`, `COMMIT` or `ROLLBACK`.
pub open spec fn block_keyword(v: SQLite3TokenView) -> bool {
    ||| v == SQLite3TokenView::Keyword(SQLite3Keyword::BEGIN)
    ||| v == SQLite3TokenView::Keyword(SQLite3Keyword::CASE)
    ||| v == SQLite3TokenView::Keyword(SQLite3Keyword::END)
    ||| v == SQLite3TokenView::Keyword(SQLite3Keyword::COMMIT)
    ||| v == SQLite3TokenView::Keyword(SQLite3Keyword::ROLLBACK)
}

/// How each kept token moves the split: `BEGIN` and `CASE` open a block;
/// `END`, `COMMIT` and `ROLLBACK` close one (outside every block they
/// close nothing); a semicolon outside every block ends a statement there,
/// whose text runs from where the previous statement ended to the
/// semicolon, and the next statement starts after it; a semicolon inside a
/// block, and every other token, changes nothing.
pub proof fn law_blocks_and_semicolons(
    lines: Seq<Seq<char>>,
    kt: Seq<WithZeroIndexedRange<SQLite3TokenView>>,
    i: int,
)
    requires
        0 <= i < kt.len(),
    ensures
        ({
            let before = split_scan(lines, kt, i as nat);
            let after = split_scan(lines, kt, (i + 1) as nat);
            let v = kt[i].value;
            let opens = (v == SQLite3TokenView::Keyword(SQLite3Keyword::BEGIN) || v == SQLite3TokenView::Keyword(SQLite3Keyword::CASE));
            let closes = (v == SQLite3TokenView::Keyword(SQLite3Keyword::END) || v == SQLite3TokenView::Keyword(SQLite3Keyword::COMMIT)
                || v == SQLite3TokenView::Keyword(SQLite3Keyword::ROLLBACK));
            &&& opens ==> after == SplitScan { depth: before.depth + 1, ..before }
            &&& closes ==> after == SplitScan {
                depth: if before.depth > 0 { (before.depth - 1) as nat } else { 0 },
                ..before
            }
            &&& v is SemiColon && before.depth == 0 ==> {
                &&& after.depth == 0
                &&& after.start == kt[i].range.end
                &&& after.first == i + 1
                &&& after.stmts == before.stmts.push(
                    single_statement(
                        lines,
                        kt,
                        before.first,
                        i + 1,
                        ZeroIndexedRange { start: before.start, end: kt[i].range.end },
                    ),
                )
            }
            &&& v is SemiColon && before.depth > 0 ==> after == before
            &&& !opens && !closes && !(v is SemiColon) ==> after == before
        }),
{
}

/// Inside a block opened at `i` outside every block, until a token that
/// opens or closes a block, the split stays one block deep and ends no
/// statement.
proof fn lemma_inside_block(
    lines: Seq<Seq<char>>,
    kt: Seq<WithZeroIndexedRange<SQLite3TokenView>>,
    i: int,
    k: int,
)
    requires
        0 <= i < k <= kt.len(),
        split_scan(lines, kt, i as nat).depth == 0,
        kt[i].value == SQLite3TokenView::Keyword(SQLite3Keyword::BEGIN) || kt[i].value
            == SQLite3TokenView::Keyword(SQLite3Keyword::CASE),
        forall|m: int| i < m < k ==> !block_keyword(#[trigger] kt[m].value),
    ensures
        split_scan(lines, kt, k as nat) == (SplitScan { depth: 1, ..split_scan(lines, kt, i as nat) }),
    decreases k - i,
{
    law_blocks_and_semicolons(lines, kt, k - 1);
    if k > i + 1 {
        lemma_inside_block(lines, kt, i, k - 1);
    }
}

/// A transaction or `CASE` block is one statement: where `BEGIN` (or
/// `CASE`) at `i` opens a block outside every block, and the first token
/// that closes or opens a block after it is an `END`, `COMMIT` or
/// `ROLLBACK` at `j`, the semicolons in between end nothing, the block is
/// closed again after `j`, and a semicolon right after `j` ends one
/// statement that holds the whole block, from where the statement before
/// it ended.
pub proof fn law_block_is_one_statement(
    lines: Seq<Seq<char>>,
    kt: Seq<WithZeroIndexedRange<SQLite3TokenView>>,
    i: int,
    j: int,
)
    requires
        0 <= i < j < kt.len(),
        split_scan(lines, kt, i as nat).depth == 0,
        kt[i].value == SQLite3TokenView::Keyword(SQLite3Keyword::BEGIN) || kt[i].value
            == SQLite3TokenView::Keyword(SQLite3Keyword::CASE),
        kt[j].value == SQLite3TokenView::Keyword(SQLite3Keyword::END) || kt[j].value
            == SQLite3TokenView::Keyword(SQLite3Keyword::COMMIT) || kt[j].value == SQLite3TokenView::Keyword(
            SQLite3Keyword::ROLLBACK,
        ),
        forall|m: int| i < m < j ==> !block_keyword(#[trigger] kt[m].value),
    ensures
        ({
            let before = split_scan(lines, kt, i as nat);
            &&& split_scan(lines, kt, (j + 1) as nat) == before
            &&& j + 1 < kt.len() && kt[j + 1].value is SemiColon ==> split_scan(lines, kt, (j + 2) as nat).stmts
                == before.stmts.push(
                single_statement(
                    lines,
                    kt,
                    before.first,
                    j + 2,
                    ZeroIndexedRange { start: before.start, end: kt[j + 1].range.end },
                ),
            )
        }),
{
    lemma_inside_block(lines, kt, i, j);
    law_blocks_and_semicolons(lines, kt, j);
    if j + 1 < kt.len() {
        law_blocks_and_semicolons(lines, kt, j + 1);
    }
}

/// The tokens come one after another: each starts no later than it ends,
/// and no later than any token after it starts or ends.
pub open spec fn tokens_ordered(kt: Seq<WithZeroIndexedRange<SQLite3TokenView>>) -> bool {
    &&& forall|p: int| 0 <= p < kt.len() ==> loc_le((#[trigger] kt[p]).range.start, kt[p].range.end)
    &&& forall|p: int, q: int|
        0 <= p < q < kt.len() ==> loc_le((#[trigger] kt[p]).range.end, (#[trigger] kt[q]).range.start)
}

/// The real text of a statement lies within its whole text.
pub open spec fn real_within_all(s: SingleStatementView) -> bool {
    &&& loc_le(s.all_text.range.start, s.real_text.range.start)
    &&& loc_le(s.real_text.range.start, s.real_text.range.end)
    &&& loc_le(s.real_text.range.end, s.all_text.range.end)
}

proof fn lemma_tokens_in_order(lines: Seq<Seq<char>>, ts: Seq<WithZeroIndexedRange<SQLite3TokenView>>, i: int, j: int)
    requires
        tokens_fit(lines, ts),
        0 <= i < j < ts.len(),
    ensures
        loc_le(ts[i].range.end, ts[j].range.start),
    decreases j - i,
{
    assert(ts[j - 1].range.end == ts[j].range.start);
    if i < j - 1 {
        lemma_tokens_in_order(lines, ts, i, j - 1);
        assert(range_fits(lines, ts[j - 1].range));
    }
}

proof fn lemma_kept_increasing(lines: Seq<Seq<char>>, ts: Seq<WithZeroIndexedRange<SQLite3TokenView>>, n: nat)
    requires
        n <= ts.len(),
    ensures
        forall|p: int| 0 <= p < dot_scan(lines, ts, n).kept.len() ==> 0 <= #[trigger] dot_scan(lines, ts, n).kept[p] < n,
        forall|p: int, q: int|
            0 <= p < q < dot_scan(lines, ts, n).kept.len() ==> #[trigger] dot_scan(lines, ts, n).kept[p]
                < #[trigger] dot_scan(lines, ts, n).kept[q],
    decreases n,
{
    if n > 0 {
        lemma_kept_increasing(lines, ts, (n - 1) as nat);
        let prev = dot_scan(lines, ts, (n - 1) as nat).kept;
        let kept = dot_scan(lines, ts, n).kept;
        assert(kept == prev || kept == prev.push(n - 1));
        assert forall|p: int| 0 <= p < kept.len() implies 0 <= #[trigger] kept[p] < n by {
            if p < prev.len() {
                assert(kept[p] == prev[p]);
            }
        }
        assert forall|p: int, q: int| 0 <= p < q < kept.len() implies #[trigger] kept[p] < #[trigger] kept[q] by {
            assert(kept[p] == prev[p]);
            if q < prev.len() {
                assert(kept[q] == prev[q]);
            }
        }
    }
}

proof fn lemma_kept_ordered(lines: Seq<Seq<char>>, ts: Seq<WithZeroIndexedRange<SQLite3TokenView>>)
    requires
        tokens_fit(lines, ts),
    ensures
        tokens_ordered(kept_tokens(lines, ts)),
{
    let kept = dot_scan(lines, ts, ts.len()).kept;
    let kt = kept_tokens(lines, ts);
    lemma_kept_increasing(lines, ts, ts.len());
    assert forall|p: int| 0 <= p < kt.len() implies loc_le((#[trigger] kt[p]).range.start, kt[p].range.end) by {
        assert(kt[p] == ts[kept[p]]);
        assert(range_fits(lines, ts[kept[p]].range));
    }
    assert forall|p: int, q: int| 0 <= p < q < kt.len() implies loc_le(
        (#[trigger] kt[p]).range.end,
        (#[trigger] kt[q]).range.start,
    ) by {
        assert(kept[p] < kept[q]);
        lemma_tokens_in_order(lines, ts, kept[p], kept[q]);
    }
}

proof fn lemma_statement_within(
    lines: Seq<Seq<char>>,
    kt: Seq<WithZeroIndexedRange<SQLite3TokenView>>,
    first: int,
    b: int,
    start: ZeroIndexedLocation,
)
    requires
        tokens_ordered(kt),
        0 <= first <= b <= kt.len(),
        b > 0,
        first == 0 ==> start == (ZeroIndexedLocation { line: 0, column: 0 }),
        first > 0 ==> start == kt[first - 1].range.end,
    ensures
        real_within_all(
            single_statement(lines, kt, first, b, ZeroIndexedRange { start, end: kt[b - 1].range.end }),
        ),
{
    lemma_first_non_ws(kt, first, b);
    lemma_last_non_ws(kt, first, b);
    let rs = first_non_ws(kt, first, b);
    let re = last_non_ws(kt, first, b);
    assert(loc_le(kt[b - 1].range.start, kt[b - 1].range.end));
    if first > 0 && first - 1 < b - 1 {
        assert(loc_le(kt[first - 1].range.end, kt[b - 1].range.start));
    }
    if rs < b {
        assert(!(kt[rs].value is Whitespace));
        assert(re >= rs);
        assert(loc_le(kt[rs].range.start, kt[rs].range.end));
        assert(loc_le(kt[re].range.start, kt[re].range.end));
        if rs < re {
            assert(loc_le(kt[rs].range.end, kt[re].range.start));
        }
        if re < b - 1 {
            assert(loc_le(kt[re].range.end, kt[b - 1].range.start));
        }
        if first > 0 {
            assert(loc_le(kt[first - 1].range.end, kt[rs].range.start));
        }
    }
}

proof fn lemma_split_scan_within(lines: Seq<Seq<char>>, kt: Seq<WithZeroIndexedRange<SQLite3TokenView>>, n: nat)
    requires
        tokens_ordered(kt),
        n <= kt.len(),
    ensures
        ({
            let st = split_scan(lines, kt, n);
            &&& 0 <= st.first <= n
            &&& st.first == 0 ==> st.start == (ZeroIndexedLocation { line: 0, column: 0 })
            &&& st.first > 0 ==> st.start == kt[st.first - 1].range.end
            &&& forall|k: int| 0 <= k < st.stmts.len() ==> real_within_all(#[trigger] st.stmts[k])
        }),
    decreases n,
{
    if n > 0 {
        lemma_split_scan_within(lines, kt, (n - 1) as nat);
        let st = split_scan(lines, kt, (n - 1) as nat);
        let i = n - 1;
        let t = kt[i];
        if !opens_block(t.value) && !closes_block(t.value) && t.value is SemiColon && st.depth == 0 {
            lemma_statement_within(lines, kt, st.first, i + 1, st.start);
            let ns = split_scan(lines, kt, n).stmts;
            assert forall|k: int| 0 <= k < ns.len() implies real_within_all(#[trigger] ns[k]) by {
                if k < st.stmts.len() {
                    assert(ns[k] == st.stmts[k]);
                }
            }
        }
    }
}

/// The real text of every statement lies within the statement's whole
/// text: the whole text starts no later than the real text, which starts
/// no later than it ends, and ends no later than the whole text.
pub proof fn law_real_text_within_statement(sql: Seq<char>)
    ensures
        split_result(sql) matches Ok((ss, _)) ==> forall|k: int|
            0 <= k < ss.len() ==> real_within_all(#[trigger] ss[k]),
{
    if let Ok(ts) = tokenize_spec(sql) {
        let lines = lines_of(sql);
        if tokens_fit(lines, ts) {
            lemma_kept_ordered(lines, ts);
            let kt = kept_tokens(lines, ts);
            let st = split_scan(lines, kt, kt.len());
            lemma_split_scan_within(lines, kt, kt.len());
            let ss = statements_of(lines, kt);
            if kt.len() > 0 && st.start != kt.last().range.end {
                lemma_statement_within(lines, kt, st.first, kt.len() as int, st.start);
            }
            assert forall|k: int| 0 <= k < ss.len() implies real_within_all(#[trigger] ss[k]) by {
                if k < st.stmts.len() {
                    assert(ss[k] == st.stmts[k]);
                }
            }
        }
    }
}

proof fn lemma_subrange_ordered(kt: Seq<WithZeroIndexedRange<SQLite3TokenView>>, a: int, b: int)
    requires
        tokens_ordered(kt),
        0 <= a <= b <= kt.len(),
    ensures
        tokens_ordered(kt.subrange(a, b)),
{
    let sub = kt.subrange(a, b);
    assert forall|p: int| 0 <= p < sub.len() implies loc_le((#[trigger] sub[p]).range.start, sub[p].range.end) by {
        assert(sub[p] == kt[a + p]);
    }
    assert forall|p: int, q: int| 0 <= p < q < sub.len() implies loc_le(
        (#[trigger] sub[p]).range.end,
        (#[trigger] sub[q]).range.start,
    ) by {
        assert(sub[p] == kt[a + p] && sub[q] == kt[a + q]);
    }
}

proof fn lemma_statement_tokens_ordered(
    lines: Seq<Seq<char>>,
    kt: Seq<WithZeroIndexedRange<SQLite3TokenView>>,
    a: int,
    b: int,
    range: ZeroIndexedRange,
)
    requires
        tokens_ordered(kt),
        0 <= a <= b <= kt.len(),
    ensures
        tokens_ordered(single_statement(lines, kt, a, b, range).real_tokens),
{
    lemma_first_non_ws(kt, a, b);
    lemma_last_non_ws(kt, a, b);
    let rs = first_non_ws(kt, a, b);
    let re = last_non_ws(kt, a, b);
    if rs < b {
        assert(!(kt[rs].value is Whitespace));
        assert(re >= rs);
        lemma_subrange_ordered(kt, rs, re + 1);
    } else {
        lemma_subrange_ordered(kt, a, b);
    }
}

proof fn lemma_split_scan_tokens_ordered(lines: Seq<Seq<char>>, kt: Seq<WithZeroIndexedRange<SQLite3TokenView>>, n: nat)
    requires
        tokens_ordered(kt),
        n <= kt.len(),
    ensures
        forall|k: int|
            0 <= k < split_scan(lines, kt, n).stmts.len() ==> tokens_ordered(
                (#[trigger] split_scan(lines, kt, n).stmts[k]).real_tokens,
            ),
    decreases n,
{
    if n > 0 {
        lemma_split_scan_tokens_ordered(lines, kt, (n - 1) as nat);
        lemma_split_scan_within(lines, kt, (n - 1) as nat);
        let st = split_scan(lines, kt, (n - 1) as nat);
        let i = n - 1;
        let t = kt[i];
        if !opens_block(t.value) && !closes_block(t.value) && t.value is SemiColon && st.depth == 0 {
            lemma_statement_tokens_ordered(lines, kt, st.first, i + 1, ZeroIndexedRange { start: st.start, end: t.range.end });
            let ns = split_scan(lines, kt, n).stmts;
            assert forall|k: int| 0 <= k < ns.len() implies tokens_ordered((#[trigger] ns[k]).real_tokens) by {
                if k < st.stmts.len() {
                    assert(ns[k] == st.stmts[k]);
                }
            }
        }
    }
}

/// The real tokens of every statement come one after another in the text
/// (see [`tokens_ordered`]).
pub proof fn law_statement_tokens_in_order(sql: Seq<char>)
    ensures
        split_result(sql) matches Ok((ss, _)) ==> forall|k: int|
            0 <= k < ss.len() ==> tokens_ordered((#[trigger] ss[k]).real_tokens),
{
    if let Ok(ts) = tokenize_spec(sql) {
        let lines = lines_of(sql);
        if tokens_fit(lines, ts) {
            lemma_kept_ordered(lines, ts);
            let kt = kept_tokens(lines, ts);
            let st = split_scan(lines, kt, kt.len());
            lemma_split_scan_within(lines, kt, kt.len());
            lemma_split_scan_tokens_ordered(lines, kt, kt.len());
            let ss = statements_of(lines, kt);
            if kt.len() > 0 && st.start != kt.last().range.end {
                lemma_statement_tokens_ordered(
                    lines,
                    kt,
                    st.first,
                    kt.len() as int,
                    ZeroIndexedRange { start: st.start, end: kt.last().range.end },
                );
            }
            assert forall|k: int| 0 <= k < ss.len() implies tokens_ordered((#[trigger] ss[k]).real_tokens) by {
                if k < st.stmts.len() {
                    assert(ss[k] == st.stmts[k]);
                }
            }
        }
    }
}

proof fn lemma_tokens_fit(sql: Seq<char>, ts: Seq<WithZeroIndexedRange<SQLite3TokenView>>)
    requires
        tokens_tile(sql, ts),
        tokens_within_lines(sql, ts),
    ensures
        tokens_fit(lines_of(sql), ts),
{
    let lines = lines_of(sql);
    assert forall|i: int| 0 <= i < ts.len() implies range_fits(lines, #[trigger] ts[i].range)
        && ts[i].range.start.column <= lines[ts[i].range.start.line as int].len() by {
        assert(loc_le(ts[i].range.start, ts[i].range.end));
    }
}

/// Where sqlparser places its tokens as [`raw_tokens_placed`] says (which
/// its wrapper's contract states of every call), splitting fails exactly
/// when tokenizing fails, with the tokenizer's error.
pub proof fn law_split_fails_only_with_the_tokenizer(sql: Seq<char>)
    requires
        sqlparser_tokens(sql) matches Ok(raw) ==> raw_tokens_placed(sql, raw),
    ensures
        split_result(sql) is Err <==> tokenize_spec(sql) is Err,
        tokenize_spec(sql) matches Err(e) ==> split_result(sql) == Err::<
            (Seq<SingleStatementView>, Seq<DotCommandView>),
            (ZeroIndexedLocation, Seq<char>),
        >(e),
{
    law_tokens_tile_the_text(sql);
    law_tokens_within_lines(sql);
    if let Ok(ts) = tokenize_spec(sql) {
        lemma_tokens_fit(sql, ts);
    }
}

/// A statement's whole text covers at least one character.
pub open spec fn covers_text(s: SingleStatementView) -> bool {
    loc_lt(s.all_text.range.start, s.all_text.range.end)
}

proof fn lemma_kept_semicolons(lines: Seq<Seq<char>>, ts: Seq<WithZeroIndexedRange<SQLite3TokenView>>)
    requires
        semicolons_cover_text(ts),
    ensures
        semicolons_cover_text(kept_tokens(lines, ts)),
{
    let kept = dot_scan(lines, ts, ts.len()).kept;
    let kt = kept_tokens(lines, ts);
    lemma_kept_increasing(lines, ts, ts.len());
    assert forall|k: int| 0 <= k < kt.len() && (#[trigger] kt[k]).value is SemiColon implies loc_lt(
        kt[k].range.start,
        kt[k].range.end,
    ) by {
        assert(kt[k] == ts[kept[k]]);
    }
}

proof fn lemma_split_scan_covers(lines: Seq<Seq<char>>, kt: Seq<WithZeroIndexedRange<SQLite3TokenView>>, n: nat)
    requires
        tokens_ordered(kt),
        semicolons_cover_text(kt),
        n <= kt.len(),
    ensures
        forall|k: int| 0 <= k < split_scan(lines, kt, n).stmts.len() ==> covers_text(#[trigger] split_scan(lines, kt, n).stmts[k]),
    decreases n,
{
    if n > 0 {
        lemma_split_scan_covers(lines, kt, (n - 1) as nat);
        lemma_split_scan_within(lines, kt, (n - 1) as nat);
        let st = split_scan(lines, kt, (n - 1) as nat);
        let i = n - 1;
        let t = kt[i];
        if !opens_block(t.value) && !closes_block(t.value) && t.value is SemiColon && st.depth == 0 {
            assert(loc_lt(t.range.start, t.range.end));
            if st.first > 0 && st.first - 1 < i {
                assert(loc_le(kt[st.first - 1].range.end, kt[i].range.start));
            }
            let ns = split_scan(lines, kt, n).stmts;
            assert forall|k: int| 0 <= k < ns.len() implies covers_text(#[trigger] ns[k]) by {
                if k < st.stmts.len() {
                    assert(ns[k] == st.stmts[k]);
                }
            }
        }
    }
}

/// Where sqlparser places its tokens as [`raw_tokens_placed`] says (which
/// its wrapper's contract states of every call), every statement covers
/// at least one character: its whole text starts before it ends.
pub proof fn law_statements_cover_text(sql: Seq<char>)
    requires
        sqlparser_tokens(sql) matches Ok(raw) ==> raw_tokens_placed(sql, raw),
    ensures
        split_result(sql) matches Ok((ss, _)) ==> forall|k: int| 0 <= k < ss.len() ==> covers_text(#[trigger] ss[k]),
{
    law_tokens_within_lines(sql);
    lemma_statements_cover_text(sql);
}

proof fn lemma_statements_cover_text(sql: Seq<char>)
    requires
        tokenize_spec(sql) matches Ok(ts) ==> semicolons_cover_text(ts),
    ensures
        split_result(sql) matches Ok((ss, _)) ==> forall|k: int| 0 <= k < ss.len() ==> covers_text(#[trigger] ss[k]),
{
    if let Ok(ts) = tokenize_spec(sql) {
        let lines = lines_of(sql);
        if tokens_fit(lines, ts) {
            lemma_kept_ordered(lines, ts);
            lemma_kept_semicolons(lines, ts);
            let kt = kept_tokens(lines, ts);
            let st = split_scan(lines, kt, kt.len());
            lemma_split_scan_within(lines, kt, kt.len());
            lemma_split_scan_covers(lines, kt, kt.len());
            let ss = statements_of(lines, kt);
            if kt.len() > 0 && st.start != kt.last().range.end {
                assert(loc_le(kt.last().range.start, kt.last().range.end));
                if st.first > 0 && st.first - 1 < kt.len() - 1 {
                    assert(loc_le(kt[st.first - 1].range.end, kt[kt.len() - 1].range.start));
                }
            }
            assert forall|k: int| 0 <= k < ss.len() implies covers_text(#[trigger] ss[k]) by {
                if k < st.stmts.len() {
                    assert(ss[k] == st.stmts[k]);
                }
            }
        }
    }
}

proof fn lemma_empty_script(sql: Seq<char>)
    requires
        tokenize_spec(sql) == Ok::<Seq<WithZeroIndexedRange<SQLite3TokenView>>, (ZeroIndexedLocation, Seq<char>)>(
            Seq::empty(),
        ),
    ensures
        split_result(sql) matches Ok((ss, ds)) && ss.len() == 0 && ds.len() == 0,
{
    let lines = lines_of(sql);
    let ts = Seq::<WithZeroIndexedRange<SQLite3TokenView>>::empty();
    assert(dot_scan(lines, ts, 0).kept.len() == 0);
    assert(kept_tokens(lines, ts).len() == 0);
    assert(tokens_fit(lines, ts));
}

/// The whole texts of statements, one after another.
pub open spec fn statement_texts(ss: Seq<SingleStatementView>) -> Seq<char>
    decreases ss.len(),
{
    if ss.len() == 0 {
        seq![]
    } else {
        statement_texts(ss.drop_last()) + ss.last().all_text.value
    }
}

/// Every token can be cut out of the text, and every token but the last
/// ends within its line.
pub open spec fn tokens_inside(lines: Seq<Seq<char>>, kt: Seq<WithZeroIndexedRange<SQLite3TokenView>>) -> bool {
    &&& forall|p: int| 0 <= p < kt.len() ==> range_fits(lines, (#[trigger] kt[p]).range)
    &&& forall|p: int|
        0 <= p < kt.len() - 1 ==> (#[trigger] kt[p]).range.end.column <= lines[kt[p].range.end.line as int].len()
}

/// The whole text of a statement is the text of its range, and that range
/// can be cut out of the text.
pub open spec fn statement_fits(lines: Seq<Seq<char>>, s: SingleStatementView) -> bool {
    &&& range_fits(lines, s.all_text.range)
    &&& s.all_text.value == range_text(lines, s.all_text.range)
}

proof fn lemma_kept_inside(lines: Seq<Seq<char>>, ts: Seq<WithZeroIndexedRange<SQLite3TokenView>>)
    requires
        tokens_fit(lines, ts),
    ensures
        tokens_inside(lines, kept_tokens(lines, ts)),
{
    let kept = dot_scan(lines, ts, ts.len()).kept;
    let kt = kept_tokens(lines, ts);
    lemma_kept_increasing(lines, ts, ts.len());
    assert forall|p: int| 0 <= p < kt.len() implies range_fits(lines, (#[trigger] kt[p]).range) by {
        assert(kt[p] == ts[kept[p]]);
    }
    assert forall|p: int| 0 <= p < kt.len() - 1 implies (#[trigger] kt[p]).range.end.column
        <= lines[kt[p].range.end.line as int].len() by {
        let m = kept[p];
        assert(kept[p] < kept[p + 1]);
        assert(kt[p] == ts[m]);
        assert(ts[m].range.end == ts[m + 1].range.start);
        assert(range_fits(lines, ts[m + 1].range));
    }
}

proof fn lemma_statement_fits(
    lines: Seq<Seq<char>>,
    kt: Seq<WithZeroIndexedRange<SQLite3TokenView>>,
    first: int,
    b: int,
    start: ZeroIndexedLocation,
)
    requires
        tokens_ordered(kt),
        tokens_inside(lines, kt),
        0 <= first <= b <= kt.len(),
        b > 0,
        first == 0 ==> start == (ZeroIndexedLocation { line: 0, column: 0 }),
        first > 0 ==> start == kt[first - 1].range.end,
        first > 0 ==> first - 1 < kt.len() - 1,
    ensures
        statement_fits(
            lines,
            single_statement(lines, kt, first, b, ZeroIndexedRange { start, end: kt[b - 1].range.end }),
        ),
{
    lemma_statement_within(lines, kt, first, b, start);
    let s = single_statement(lines, kt, first, b, ZeroIndexedRange { start, end: kt[b - 1].range.end });
    assert(real_within_all(s));
    assert(range_fits(lines, kt[b - 1].range));
    assert(s.all_text.range == ZeroIndexedRange { start, end: kt[b - 1].range.end });
}

proof fn lemma_split_scan_fits(lines: Seq<Seq<char>>, kt: Seq<WithZeroIndexedRange<SQLite3TokenView>>, n: nat)
    requires
        tokens_ordered(kt),
        tokens_inside(lines, kt),
        n <= kt.len(),
    ensures
        forall|k: int|
            0 <= k < split_scan(lines, kt, n).stmts.len() ==> statement_fits(
                lines,
                #[trigger] split_scan(lines, kt, n).stmts[k],
            ),
    decreases n,
{
    if n > 0 {
        lemma_split_scan_fits(lines, kt, (n - 1) as nat);
        lemma_split_scan_within(lines, kt, (n - 1) as nat);
        let st = split_scan(lines, kt, (n - 1) as nat);
        let i = n - 1;
        let t = kt[i];
        if !opens_block(t.value) && !closes_block(t.value) && t.value is SemiColon && st.depth == 0 {
            lemma_statement_fits(lines, kt, st.first, i + 1, st.start);
            let ns = split_scan(lines, kt, n).stmts;
            assert forall|k: int| 0 <= k < ns.len() implies statement_fits(lines, #[trigger] ns[k]) by {
                if k < st.stmts.len() {
                    assert(ns[k] == st.stmts[k]);
                }
            }
        }
    }
}

proof fn lemma_texts_concatenate(lines: Seq<Seq<char>>, ss: Seq<SingleStatementView>, n: int)
    requires
        1 <= n <= ss.len(),
        ss[0].all_text.range.start == (ZeroIndexedLocation { line: 0, column: 0 }),
        forall|i: int| 0 <= i < ss.len() - 1 ==> (#[trigger] ss[i]).all_text.range.end == ss[i + 1].all_text.range.start,
        forall|k: int| 0 <= k < ss.len() ==> statement_fits(lines, #[trigger] ss[k]),
    ensures
        ({
            let r = ZeroIndexedRange {
                start: ZeroIndexedLocation { line: 0, column: 0 },
                end: ss[n - 1].all_text.range.end,
            };
            &&& range_fits(lines, r)
            &&& statement_texts(ss.subrange(0, n)) == range_text(lines, r)
        }),
    decreases n,
{
    let sub = ss.subrange(0, n);
    assert(sub.drop_last() =~= ss.subrange(0, n - 1));
    assert(statement_fits(lines, ss[n - 1]));
    if n == 1 {
        assert(ss.subrange(0, 0) =~= Seq::<SingleStatementView>::empty());
        assert(statement_texts(ss.subrange(0, 0)) == Seq::<char>::empty());
        assert(sub.last() == ss[0]);
        assert(statement_texts(sub) == statement_texts(sub.drop_last()) + sub.last().all_text.value);
        assert(statement_texts(sub) =~= ss[0].all_text.value);
    } else {
        lemma_texts_concatenate(lines, ss, n - 1);
        assert(ss[n - 2].all_text.range.end == ss[n - 1].all_text.range.start);
        lemma_range_text_split(
            lines,
            ZeroIndexedLocation { line: 0, column: 0 },
            ss[n - 1].all_text.range.start,
            ss[n - 1].all_text.range.end,
        );
    }
}

/// Read one after another, the whole texts of the statements give the text
/// of the script from its start to where the last statement ends.
pub proof fn law_statements_concatenate(sql: Seq<char>)
    ensures
        split_result(sql) matches Ok((ss, _)) ==> (ss.len() > 0 ==> statement_texts(ss) == range_text(
            lines_of(sql),
            ZeroIndexedRange {
                start: ZeroIndexedLocation { line: 0, column: 0 },
                end: ss.last().all_text.range.end,
            },
        )),
{
    if let Ok(ts) = tokenize_spec(sql) {
        let lines = lines_of(sql);
        if tokens_fit(lines, ts) {
            lemma_kept_ordered(lines, ts);
            lemma_kept_inside(lines, ts);
            let kt = kept_tokens(lines, ts);
            let st = split_scan(lines, kt, kt.len());
            lemma_split_scan_within(lines, kt, kt.len());
            lemma_split_scan_fits(lines, kt, kt.len());
            law_statements_tile(sql);
            let ss = statements_of(lines, kt);
            if kt.len() > 0 && st.start != kt.last().range.end {
                if st.first > 0 && st.first - 1 >= kt.len() - 1 {
                    assert(st.first == kt.len());
                    assert(st.start == kt.last().range.end);
                }
                lemma_statement_fits(lines, kt, st.first, kt.len() as int, st.start);
            }
            assert forall|k: int| 0 <= k < ss.len() implies statement_fits(lines, #[trigger] ss[k]) by {
                if k < st.stmts.len() {
                    assert(ss[k] == st.stmts[k]);
                }
            }
            if ss.len() > 0 {
                lemma_texts_concatenate(lines, ss, ss.len() as int);
                assert(ss.subrange(0, ss.len() as int) =~= ss);
            }
        }
    }
}

proof fn lemma_lines_join_back(s: Seq<char>)
    requires
        s.len() > 0,
        forall|k: int| 0 <= k < s.len() ==> s[k] != '\r',
        s.last() != '\n',
    ensures
        lines_of(s).len() > 0,
        join_lines(lines_of(s)) == s,
        lines_of(s).len() <= s.len(),
        forall|k: int| 0 <= k < lines_of(s).len() ==> (#[trigger] lines_of(s)[k]).len() <= s.len(),
    decreases s.len(),
{
    lemma_newline_index_bound(s);
    let n = newline_index(s);
    if n < s.len() {
        let head = s.subrange(0, n as int);
        let rest = s.subrange((n + 1) as int, s.len() as int);
        assert(n + 1 < s.len());
        assert(rest.last() == s.last());
        lemma_lines_join_back(rest);
        assert(strip_cr(head) == head) by {
            if head.len() > 0 {
                assert(head.last() == s[n - 1]);
            }
        }
        assert(lines_of(s) == seq![head] + lines_of(rest));
        assert forall|k: int| 0 <= k < lines_of(s).len() implies (#[trigger] lines_of(s)[k]).len() <= s.len() by {
            if k > 0 {
                assert(lines_of(s)[k] == lines_of(rest)[k - 1]);
            }
        }
        lemma_join_lines_concat(seq![head], lines_of(rest));
        assert(join_lines(seq![head]) == head);
        assert(s =~= head + seq!['\n'] + rest);
    }
}

proof fn lemma_text_to_eof(sql: Seq<char>)
    requires
        lines_of(sql).len() > 0,
        lines_of(sql).len() <= usize::MAX,
        lines_of(sql).last().len() <= usize::MAX,
    ensures
        range_fits(lines_of(sql), ZeroIndexedRange { start: ZeroIndexedLocation { line: 0, column: 0 }, end: eof_location(sql) }),
        range_text(lines_of(sql), ZeroIndexedRange { start: ZeroIndexedLocation { line: 0, column: 0 }, end: eof_location(sql) })
            == join_lines(lines_of(sql)),
{
    let lines = lines_of(sql);
    let n = lines.len();
    assert(eof_location(sql).line == n - 1);
    assert(eof_location(sql).column == lines[n - 1].len());
    if n == 1 {
        assert(slice_chars(lines[0], 0, lines[0].len() as int) =~= lines[0]);
    } else {
        assert(lines[0].subrange(0, lines[0].len() as int) =~= lines[0]);
        assert(slice_chars(lines[n - 1], 0, lines[n - 1].len() as int) =~= lines[n - 1]);
        let parts = seq![lines[0].subrange(0, lines[0].len() as int)] + lines.subrange(1, n - 1) + seq![
            slice_chars(lines[n - 1], 0, lines[n - 1].len() as int),
        ];
        assert(parts =~= lines);
    }
}

proof fn lemma_no_dots_keeps_all(lines: Seq<Seq<char>>, ts: Seq<WithZeroIndexedRange<SQLite3TokenView>>, n: nat)
    requires
        n <= ts.len(),
        dot_scan(lines, ts, n).dots.len() == 0,
    ensures
        dot_scan(lines, ts, n).mode != 2,
        dot_scan(lines, ts, n).kept == Seq::new(n, |p: int| p),
    decreases n,
{
    if n > 0 {
        let prev = dot_scan(lines, ts, (n - 1) as nat);
        assert(dot_scan(lines, ts, n).dots.len() >= prev.dots.len());
        lemma_no_dots_keeps_all(lines, ts, (n - 1) as nat);
        assert(dot_scan(lines, ts, n).kept =~= Seq::new(n, |p: int| p));
    }
}

/// The script is its statements, read one after another: when it has no
/// dot-command and its tokens reach the end of its text (see
/// [`crate::tokenize::law_tokens_adjacent`]), the whole texts of its
/// statements give the text back, provided it has no `\r` and does not end
/// with a line break (which its lines do not keep).
pub proof fn law_statements_give_back_the_script(sql: Seq<char>)
    requires
        0 < sql.len() <= usize::MAX,
        forall|k: int| 0 <= k < sql.len() ==> sql[k] != '\r',
        sql.last() != '\n',
        tokenize_spec(sql) matches Ok(ts) ==> ts.len() > 0 && ts.last().range.end == eof_location(sql),
    ensures
        split_result(sql) matches Ok((ss, ds)) ==> (ds.len() == 0 ==> statement_texts(ss) == sql),
{
    if let Ok(ts) = tokenize_spec(sql) {
        let lines = lines_of(sql);
        if tokens_fit(lines, ts) && dot_scan(lines, ts, ts.len()).dots.len() == 0 {
            lemma_no_dots_keeps_all(lines, ts, ts.len());
            let kt = kept_tokens(lines, ts);
            assert(kt =~= ts);
            let st = split_scan(lines, kt, kt.len());
            lemma_split_scan_tiles(lines, kt, kt.len());
            law_statements_concatenate(sql);
            let ss = statements_of(lines, kt);
            assert(ss.len() > 0) by {
                if !(st.start != kt.last().range.end) {
                    if st.stmts.len() == 0 {
                        assert(st.start == (ZeroIndexedLocation { line: 0, column: 0 }));
                        assert(eof_location(sql) == (ZeroIndexedLocation { line: 0, column: 0 }));
                        lemma_lines_join_back(sql);
                        assert(lines.last().len() <= sql.len());
                        assert(lines.len() == 1);
                        assert(join_lines(lines) == lines[0]);
                    }
                }
            }
            assert(ss.last().all_text.range.end == kt.last().range.end);
            lemma_lines_join_back(sql);
            assert(lines.last().len() <= sql.len());
            lemma_text_to_eof(sql);
        }
    }
}

// ---------------------------------------------------------------------------
// Implementation
// ---------------------------------------------------------------------------

fn dup_token(t: &WithZeroIndexedRange<SQLite3Token>) -> (r: WithZeroIndexedRange<SQLite3Token>)
    ensures
        r@ == t@,
{
    WithZeroIndexedRange { value: t.value.duplicate(), range: t.range }
}

/// Copies of the tokens `a..b`.
pub(crate) fn copy_tokens(ts: &Vec<WithZeroIndexedRange<SQLite3Token>>, a: usize, b: usize) -> (r: Vec<
    WithZeroIndexedRange<SQLite3Token>,
>)
    requires
        a <= b <= ts@.len(),
    ensures
        token_views(r@) == token_views(ts@).subrange(a as int, b as int),
{
    let mut r: Vec<WithZeroIndexedRange<SQLite3Token>> = Vec::new();
    let mut i = a;
    while i < b
        invariant
            a <= i <= b,
            b <= ts@.len(),
            token_views(r@) == token_views(ts@).subrange(a as int, i as int),
        decreases b - i,
    {
        let ghost old_r = r@;
        r.push(dup_token(&ts[i]));
        proof {
            assert(token_views(r@) =~= token_views(old_r).push(ts@[i as int]@));
        }
        i = i + 1;
        proof {
            assert(token_views(ts@).subrange(a as int, i as int) =~= token_views(ts@).subrange(
                a as int,
                i - 1,
            ).push(ts@[i - 1]@));
        }
    }
    r
}

impl SingleStatement {
    /// The statement made of tokens `a..b` of `tokens`, over `range`.
    pub(crate) fn new(
        lines: &[&str],
        tokens: &Vec<WithZeroIndexedRange<SQLite3Token>>,
        a: usize,
        b: usize,
        range: ZeroIndexedRange,
    ) -> (r: Self)
        requires
            a <= b <= tokens@.len(),
            range_fits(str_views(lines@), range),
            forall|i: int, j: int|
                a <= i <= j < b ==> range_fits(
                    str_views(lines@),
                    (ZeroIndexedRange {
                        start: #[trigger] token_views(tokens@)[i].range.start,
                        end: #[trigger] token_views(tokens@)[j].range.end,
                    }),
                ),
        ensures
            r@ == single_statement(str_views(lines@), token_views(tokens@), a as int, b as int, range),
    {
        let ghost tv = token_views(tokens@);
        let mut rs = a;
        while rs < b && tokens[rs].value.is_whitespace()
            invariant
                a <= rs <= b,
                b <= tokens@.len(),
                tv == token_views(tokens@),
                first_non_ws(tv, a as int, b as int) == first_non_ws(tv, rs as int, b as int),
            decreases b - rs,
        {
            rs = rs + 1;
        }
        let mut re = b;
        while re > a && tokens[re - 1].value.is_whitespace()
            invariant
                a <= re <= b,
                b <= tokens@.len(),
                tv == token_views(tokens@),
                last_non_ws(tv, a as int, b as int) == last_non_ws(tv, a as int, re as int),
            decreases re - a,
        {
            re = re - 1;
        }
        proof {
            lemma_first_non_ws(tv, a as int, b as int);
            lemma_last_non_ws(tv, a as int, b as int);
        }
        if rs < b {
            proof {
                assert(re > a);
                assert(last_non_ws(tv, a as int, b as int) == re - 1);
                assert(first_non_ws(tv, a as int, b as int) == rs);
                assert(rs <= re - 1) by {
                    if rs > re - 1 {
                        assert(!(tv[rs as int].value is Whitespace));
                    }
                }
                assert(range_fits(
                    str_views(lines@),
                    ZeroIndexedRange { start: tv[rs as int].range.start, end: tv[re - 1].range.end },
                ));
                assert(tv[rs as int].range == tokens@[rs as int].range);
                assert(tv[re - 1].range == tokens@[re - 1].range);
            }
            let real_range = ZeroIndexedRange { start: tokens[rs].range.start, end: tokens[re - 1].range.end };
            SingleStatement {
                all_text: range.get_text_with_range(lines),
                real_text: real_range.get_text_with_range(lines),
                real_tokens: copy_tokens(tokens, rs, re),
            }
        } else {
            let real_text = range.get_text_with_range(lines);
            SingleStatement {
                all_text: range.get_text_with_range(lines),
                real_text,
                real_tokens: copy_tokens(tokens, a, b),
            }
        }
    }
}

/// Finds the dot-commands among `tokens`, and the indices of the tokens
/// that are not part of one.
fn scan_dot_commands(lines: &Vec<&str>, tokens: &Vec<WithZeroIndexedRange<SQLite3Token>>) -> (r: (
    Vec<DotCommand>,
    Vec<usize>,
))
    requires
        tokens_fit(str_views(lines@), token_views(tokens@)),
    ensures
        dot_command_views(r.0@) == dot_scan(str_views(lines@), token_views(tokens@), tokens@.len()).dots,
        r.1@.map_values(|k: usize| k as int) == dot_scan(
            str_views(lines@),
            token_views(tokens@),
            tokens@.len(),
        ).kept,
        forall|x: int| 0 <= x < r.1@.len() ==> #[trigger] r.1@[x] < tokens@.len(),
        forall|x: int, y: int| 0 <= x < y < r.1@.len() ==> #[trigger] r.1@[x] < #[trigger] r.1@[y],
{
    let ghost lv = str_views(lines@);
    let ghost tv = token_views(tokens@);
    let n = tokens.len();
    let mut dots: Vec<DotCommand> = Vec::new();
    let mut kept: Vec<usize> = Vec::new();
    let mut mode: u8 = 0;
    let mut last_line: usize = 0;
    let mut i: usize = 0;
    proof {
        assert(dot_command_views(dots@) =~= seq![]);
        assert(kept@.map_values(|k: usize| k as int) =~= seq![]);
    }
    while i < n
        invariant
            i <= n,
            n == tokens@.len(),
            tv == token_views(tokens@),
            lv == str_views(lines@),
            tokens_fit(lv, tv),
            dot_scan(lv, tv, i as nat) == (DotScan {
                mode,
                last_line,
                dots: dot_command_views(dots@),
                kept: kept@.map_values(|k: usize| k as int),
            }),
            forall|x: int| 0 <= x < kept@.len() ==> #[trigger] kept@[x] < i,
            forall|x: int, y: int| 0 <= x < y < kept@.len() ==> #[trigger] kept@[x] < #[trigger] kept@[y],
        decreases n - i,
    {
        let t = &tokens[i];
        let ghost st = dot_scan(lv, tv, i as nat);
        proof {
            assert(tv[i as int] == t@);
        }
        if mode == 0 {
            if matches!(t.value, SQLite3Token::Period) && t.range.start.column == 0 {
                last_line = t.range.start.line;
                proof {
                    assert(range_fits(lv, tv[i as int].range));
                    assert(tv[i as int].value is Period);
                }
                let cmd = DotCommand::new(t.range.start.line, lines[t.range.start.line]);
                let ghost old_dots = dot_command_views(dots@);
                dots.push(cmd);
                proof {
                    assert(dot_command_views(dots@) =~= old_dots.push(cmd@));
                }
                mode = 2;
            } else if !t.value.is_whitespace() {
                mode = 1;
            }
        } else if mode == 2 {
            if t.range.end.line > last_line {
                mode = 0;
            }
        } else {
            if matches!(t.value, SQLite3Token::SemiColon) {
                mode = 0;
            }
        }
        if mode != 2 {
            let ghost old_kept = kept@;
            kept.push(i);
            proof {
                assert(kept@.map_values(|k: usize| k as int) =~= old_kept.map_values(
                    |k: usize| k as int,
                ).push(i as int));
            }
        }
        proof {
            assert(dot_scan(lv, tv, (i + 1) as nat) == dot_scan_step(lv, st, tv[i as int], i as int));
        }
        i = i + 1;
    }
    (dots, kept)
}

/// Copies of the tokens at the indices `kept`.
fn pick_tokens(tokens: &Vec<WithZeroIndexedRange<SQLite3Token>>, kept: &Vec<usize>) -> (r: Vec<
    WithZeroIndexedRange<SQLite3Token>,
>)
    requires
        forall|y: int| 0 <= y < kept@.len() ==> #[trigger] kept@[y] < tokens@.len(),
    ensures
        token_views(r@) == kept@.map_values(|k: usize| token_views(tokens@)[k as int]),
{
    let ghost tv = token_views(tokens@);
    let mut kt: Vec<WithZeroIndexedRange<SQLite3Token>> = Vec::new();
    let mut x: usize = 0;
    while x < kept.len()
        invariant
            x <= kept@.len(),
            tv == token_views(tokens@),
            forall|y: int| 0 <= y < kept@.len() ==> #[trigger] kept@[y] < tokens@.len(),
            token_views(kt@) == kept@.subrange(0, x as int).map_values(|k: usize| tv[k as int]),
        decreases kept@.len() - x,
    {
        let ghost old_kt = token_views(kt@);
        kt.push(dup_token(&tokens[kept[x]]));
        proof {
            assert(token_views(kt@) =~= old_kt.push(tv[kept@[x as int] as int]));
            assert(kept@.subrange(0, x + 1).map_values(|k: usize| tv[k as int]) =~= kept@.subrange(
                0,
                x as int,
            ).map_values(|k: usize| tv[k as int]).push(tv[kept@[x as int] as int]));
        }
        x = x + 1;
    }
    proof {
        assert(kept@.subrange(0, kept@.len() as int) =~= kept@);
    }
    kt
}

/// Splits the tokens that are not part of a dot-command at semicolons
/// outside `BEGIN ... END` and `CASE ... END` blocks.
fn split_kept(lines: &Vec<&str>, kt: &Vec<WithZeroIndexedRange<SQLite3Token>>) -> (r: Vec<SingleStatement>)
    requires
        kept_fit(str_views(lines@), token_views(kt@)),
    ensures
        statement_views(r@) == statements_of(str_views(lines@), token_views(kt@)),
{
    let ghost lv = str_views(lines@);
    let ghost ktv = token_views(kt@);
    let mut stmts: Vec<SingleStatement> = Vec::new();
    let mut depth: usize = 0;
    let mut start = ZeroIndexedLocation { line: 0, column: 0 };
    let mut first: usize = 0;
    let m = kt.len();
    let mut j: usize = 0;
    proof {
        assert(statement_views(stmts@) =~= seq![]);
    }
    while j < m
        invariant
            j <= m,
            m == kt@.len(),
            ktv == token_views(kt@),
            lv == str_views(lines@),
            kept_fit(lv, ktv),
            depth <= j,
            first <= j,
            first == 0 ==> start == (ZeroIndexedLocation { line: 0, column: 0 }),
            first > 0 ==> start == ktv[first - 1].range.end,
            split_scan(lv, ktv, j as nat) == (SplitScan {
                depth: depth as nat,
                start,
                first: first as int,
                stmts: statement_views(stmts@),
            }),
        decreases m - j,
    {
        let ghost st = split_scan(lv, ktv, j as nat);
        proof {
            assert(ktv[j as int] == kt@[j as int]@);
        }
        let v = &kt[j].value;
        if matches!(v, SQLite3Token::Keyword(SQLite3Keyword::BEGIN) | SQLite3Token::Keyword(SQLite3Keyword::CASE)) {
            depth = depth + 1;
        } else if matches!(v, SQLite3Token::Keyword(SQLite3Keyword::END) | SQLite3Token::Keyword(SQLite3Keyword::COMMIT) | SQLite3Token::Keyword(SQLite3Keyword::ROLLBACK)) {
            depth = if depth > 0 { depth - 1 } else { 0 };
        } else if matches!(v, SQLite3Token::SemiColon) && depth == 0 {
            let end = kt[j].range.end;
            let range = ZeroIndexedRange { start, end };
            proof {
                if first > 0 {
                    assert(range_fits(lv, ZeroIndexedRange { start: ktv[first - 1].range.end, end: ktv[j as int].range.end }));
                } else {
                    assert(range_fits(lv, ZeroIndexedRange { start: ZeroIndexedLocation { line: 0, column: 0 }, end: ktv[j as int].range.end }));
                }
            }
            let stmt = SingleStatement::new(lines.as_slice(), kt, first, j + 1, range);
            let ghost old_stmts = statement_views(stmts@);
            stmts.push(stmt);
            proof {
                assert(statement_views(stmts@) =~= old_stmts.push(stmt@));
            }
            start = end;
            first = j + 1;
        }
        proof {
            assert(split_scan(lv, ktv, (j + 1) as nat) == split_step(lv, ktv, st, j as int));
        }
        j = j + 1;
    }
    if m > 0 {
        let last_end = kt[m - 1].range.end;
        if start != last_end {
            let range = ZeroIndexedRange { start, end: last_end };
            proof {
                assert(first < m) by {
                    if first == m {
                        assert(start == ktv[m - 1].range.end);
                    }
                }
                if first > 0 {
                    assert(range_fits(lv, ZeroIndexedRange { start: ktv[first - 1].range.end, end: ktv[m - 1].range.end }));
                } else {
                    assert(range_fits(lv, ZeroIndexedRange { start: ZeroIndexedLocation { line: 0, column: 0 }, end: ktv[m - 1].range.end }));
                }
            }
            let stmt = SingleStatement::new(lines.as_slice(), kt, first, m, range);
            let ghost old_stmts = statement_views(stmts@);
            stmts.push(stmt);
            proof {
                assert(statement_views(stmts@) =~= old_stmts.push(stmt@));
            }
        }
    }
    stmts
}

/// Splits the tokens of a script into statements and dot-commands.
pub fn split_tokens(lines: &Vec<&str>, tokens: &Vec<WithZeroIndexedRange<SQLite3Token>>) -> (r: (
    Vec<SingleStatement>,
    Vec<DotCommand>,
))
    requires
        tokens_fit(str_views(lines@), token_views(tokens@)),
    ensures
        (statement_views(r.0@), dot_command_views(r.1@)) == split_spec(
            str_views(lines@),
            token_views(tokens@),
        ),
{
    let ghost lv = str_views(lines@);
    let ghost tv = token_views(tokens@);
    let (dots, kept) = scan_dot_commands(lines, tokens);
    let kt = pick_tokens(tokens, &kept);
    proof {
        let ktv = token_views(kt@);
        assert(ktv =~= kept_tokens(lv, tv));
        lemma_kept_fit(lv, tv, kept@, ktv);
    }
    let stmts = split_kept(lines, &kt);
    (stmts, dots)
}

/// Every range that a statement over the kept tokens `kt` may cut out of
/// the text fits it.
pub open spec fn kept_fit(lines: Seq<Seq<char>>, kt: Seq<WithZeroIndexedRange<SQLite3TokenView>>) -> bool {
    &&& forall|x: int, y: int|
        0 <= x <= y < kt.len() ==> range_fits(
            lines,
            (ZeroIndexedRange { start: #[trigger] kt[x].range.start, end: #[trigger] kt[y].range.end }),
        )
    &&& forall|x: int, y: int|
        0 <= x < y < kt.len() ==> range_fits(
            lines,
            (ZeroIndexedRange { start: #[trigger] kt[x].range.end, end: #[trigger] kt[y].range.end }),
        )
    &&& forall|y: int|
        0 <= y < kt.len() ==> range_fits(
            lines,
            (ZeroIndexedRange {
                start: ZeroIndexedLocation { line: 0, column: 0 },
                end: #[trigger] kt[y].range.end,
            }),
        )
}

/// Tokens picked in order out of tokens that fit the text fit it too.
proof fn lemma_kept_fit(
    lv: Seq<Seq<char>>,
    tv: Seq<WithZeroIndexedRange<SQLite3TokenView>>,
    kept: Seq<usize>,
    ktv: Seq<WithZeroIndexedRange<SQLite3TokenView>>,
)
    requires
        tokens_fit(lv, tv),
        ktv == kept.map_values(|k: usize| tv[k as int]),
        forall|y: int| 0 <= y < kept.len() ==> #[trigger] kept[y] < tv.len(),
        forall|x: int, y: int| 0 <= x < y < kept.len() ==> #[trigger] kept[x] < #[trigger] kept[y],
    ensures
        kept_fit(lv, ktv),
{
    assert forall|x: int, y: int| 0 <= x <= y < ktv.len() implies range_fits(
        lv,
        (ZeroIndexedRange { start: #[trigger] ktv[x].range.start, end: #[trigger] ktv[y].range.end }),
    ) by {
        if x < y {
            assert(kept[x] < kept[y]);
        }
        lemma_fits_between(lv, tv, kept[x] as int, kept[y] as int);
    }
    assert forall|x: int, y: int| 0 <= x < y < ktv.len() implies range_fits(
        lv,
        (ZeroIndexedRange { start: #[trigger] ktv[x].range.end, end: #[trigger] ktv[y].range.end }),
    ) by {
        let p = kept[x] as int;
        let q = kept[y] as int;
        assert(p < q);
        assert(tv[p].range.end == tv[p + 1].range.start);
        lemma_fits_between(lv, tv, p + 1, q);
    }
    assert forall|y: int| 0 <= y < ktv.len() implies range_fits(
        lv,
        (ZeroIndexedRange {
            start: ZeroIndexedLocation { line: 0, column: 0 },
            end: #[trigger] ktv[y].range.end,
        }),
    ) by {
        assert(kept[y] < tv.len());
        assert(tv[0].range.start == (ZeroIndexedLocation { line: 0, column: 0 }));
        lemma_fits_between(lv, tv, 0, kept[y] as int);
    }
}

/// What the tokenizer's contract gives of the tokens of `sql`, for
/// [`lemma_split_facts`].
pub open spec fn tokenizer_facts(sql: Seq<char>) -> bool {
    &&& tokenize_spec(sql) matches Ok(ts) ==> {
        &&& tokens_tile(sql, ts)
        &&& tokens_within_lines(sql, ts)
        &&& semicolons_cover_text(ts)
        &&& (sql.len() > 0 ==> ts.len() > 0)
    }
    &&& sql.len() == 0 ==> tokenize_spec(sql) == Ok::<
        Seq<WithZeroIndexedRange<SQLite3TokenView>>,
        (ZeroIndexedLocation, Seq<char>),
    >(Seq::empty())
}

/// The script gives back its text, each statement covers text, an empty
/// script has no statement, and only the tokenizer makes splitting fail.
pub open spec fn split_facts(sql: Seq<char>) -> bool {
    &&& split_result(sql) matches Ok((ss, ds)) ==> {
        &&& forall|k: int| 0 <= k < ss.len() ==> covers_text(#[trigger] ss[k])
        &&& ({
            &&& 0 < sql.len() <= usize::MAX
            &&& forall|k: int| 0 <= k < sql.len() ==> sql[k] != '\r'
            &&& sql.last() != '\n'
            &&& ds.len() == 0
        }) ==> statement_texts(ss) == sql
    }
    &&& sql.len() == 0 ==> (split_result(sql) matches Ok((ss, ds)) && ss.len() == 0 && ds.len() == 0)
    &&& split_result(sql) is Err ==> split_result(sql) == Err::<
        (Seq<SingleStatementView>, Seq<DotCommandView>),
        (ZeroIndexedLocation, Seq<char>),
    >(tokenize_spec(sql)->Err_0) && tokenize_spec(sql) is Err
}

proof fn lemma_split_facts(sql: Seq<char>)
    requires
        tokenizer_facts(sql),
    ensures
        split_facts(sql),
{
    if 0 < sql.len() <= usize::MAX && (forall|k: int| 0 <= k < sql.len() ==> sql[k] != '\r') && sql.last() != '\n' {
        law_statements_give_back_the_script(sql);
    }
    if let Ok(ts) = tokenize_spec(sql) {
        lemma_tokens_fit(sql, ts);
    }
    lemma_statements_cover_text(sql);
    if sql.len() == 0 {
        lemma_empty_script(sql);
    }
}

/// Splits `sql` into its statements and its dot-commands (see
/// [`split_facts`] for what every result satisfies).
pub fn split_sqlite_statements(sql: &str) -> (r: Result<
    (Vec<SingleStatement>, Vec<DotCommand>),
    ZeroIndexedTokenizerError,
>)
    ensures
        match r {
            Ok((s, d)) => split_result(sql@) == Ok::<
                (Seq<SingleStatementView>, Seq<DotCommandView>),
                (ZeroIndexedLocation, Seq<char>),
            >((statement_views(s@), dot_command_views(d@))),
            Err(e) => split_result(sql@) == Err::<
                (Seq<SingleStatementView>, Seq<DotCommandView>),
                (ZeroIndexedLocation, Seq<char>),
            >((e.location, e.message@)),
        },
        split_facts(sql@),
{
    let lines = text_lines(sql);
    let tokens = match tokenize_with_range_location(sql) {
        Ok(t) => t,
        Err(e) => {
            proof {
                lemma_split_facts(sql@);
            }
            return Err(e);
        },
    };
    proof {
        if sql@.len() == 0 {
            assert(token_views(tokens@) =~= Seq::<WithZeroIndexedRange<SQLite3TokenView>>::empty());
        }
        lemma_tokens_fit(sql@, token_views(tokens@));
        lemma_split_facts(sql@);
    }
    Ok(split_tokens(&lines, &tokens))
}

/// The decimal digit `d`.
pub open spec fn digit_char(d: nat) -> char {
    ((d + 48) as u32) as char
}

/// `n` written in decimal.
pub open spec fn decimal_text(n: nat) -> Seq<char>
    decreases n,
{
    if n < 10 {
        seq![digit_char(n)]
    } else {
        decimal_text(n / 10).push(digit_char(n % 10))
    }
}

/// `n` written in decimal.
pub fn decimal_chars(n: u64) -> (r: Vec<char>)
    ensures
        r@ == decimal_text(n as nat),
    decreases n,
{
    let d = (n % 10) as u32;
    let c = match crate::dot_command::char_from_u32(d + 48) {
        Some(c) => c,
        None => '0',
    };
    if n < 10 {
        let mut v: Vec<char> = Vec::new();
        v.push(c);
        proof {
            assert(v@ =~= seq![digit_char(n as nat)]);
        }
        v
    } else {
        let mut v = decimal_chars(n / 10);
        v.push(c);
        v
    }
}

/// `l:c-l:c` for a range.
pub open spec fn range_text_debug(r: ZeroIndexedRange) -> Seq<char> {
    decimal_text(r.start.line as nat) + seq![':'] + decimal_text(r.start.column as nat) + seq!['-']
        + decimal_text(r.end.line as nat) + seq![':'] + decimal_text(r.end.column as nat)
}

/// The text of a statement for debugging: both ranges, each with its text
/// as std's `Debug` writes a string.
pub open spec fn statement_debug_text(s: SingleStatementView) -> Seq<char> {
    seq!['{', '\n', ' ', ' ', ' ', ' ', 'r', 'a', 'w', ':', ' ', ' '] + range_text_debug(s.all_text.range)
        + seq![' '] + str_debug_text(s.all_text.value) + seq!['\n', ' ', ' ', ' ', ' ', 'r', 'e', 'a', 'l', ':', ' ']
        + range_text_debug(s.real_text.range) + seq![' '] + str_debug_text(s.real_text.value) + seq!['\n', '}']
}

fn push_range_debug(out: &mut Vec<char>, r: ZeroIndexedRange)
    ensures
        final(out)@ == old(out)@ + range_text_debug(r),
{
    let a = decimal_chars(r.start.line as u64);
    append_chars(out, &a);
    out.push(':');
    let b = decimal_chars(r.start.column as u64);
    append_chars(out, &b);
    out.push('-');
    let c = decimal_chars(r.end.line as u64);
    append_chars(out, &c);
    out.push(':');
    let d = decimal_chars(r.end.column as u64);
    append_chars(out, &d);
    proof {
        assert(out@ =~= old(out)@ + range_text_debug(r));
    }
}

impl SingleStatement {
    /// The text of the statement for debugging:
    ///
    /// ```plaintext
    /// {
    ///     raw:  0:9-0:19 " SELECT 2;"
    ///     real: 0:10-0:19 "SELECT 2;"
    /// }
    /// ```
    pub fn debug_string(&self) -> (r: String)
        ensures
            r@ == statement_debug_text(self@),
    {
        let mut out: Vec<char> = vec!['{', '\n', ' ', ' ', ' ', ' ', 'r', 'a', 'w', ':', ' ', ' '];
        push_range_debug(&mut out, self.all_text.range);
        out.push(' ');
        let raw = str_chars(str_debug(self.all_text.value.as_str()).as_str());
        append_chars(&mut out, &raw);
        let mid: Vec<char> = vec!['\n', ' ', ' ', ' ', ' ', 'r', 'e', 'a', 'l', ':', ' '];
        append_chars(&mut out, &mid);
        push_range_debug(&mut out, self.real_text.range);
        out.push(' ');
        let core_chars = str_chars(str_debug(self.real_text.value.as_str()).as_str());
        append_chars(&mut out, &core_chars);
        out.push('\n');
        out.push('}');
        proof {
            assert(out@ =~= statement_debug_text(self@));
        }
        string_from_chars(&out)
    }
}

} // verus!
