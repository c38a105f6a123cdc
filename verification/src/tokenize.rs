//! Tokenizing SQLite3 SQL: sqlparser's tokens are mapped to SQLite3 tokens,
//! pieces that sqlparser splits (`1_000`, `0x1F`, `1e+5`, `@name1`) are
//! merged back, and each token gets the range it covers.
use vstd::prelude::*;

use crate::bridge::{
    RawToken, RawTokenKind, RawTokenKindView, RawTokenView, raw_views, regex_is_match,
    regex_matches, sqlparser_tokenize, sqlparser_tokens, str_to_uppercase, unicode_uppercase,
};
use crate::location::{ZeroIndexedLocation, loc_le, loc_lt};
use crate::range::{WithZeroIndexedRange, ZeroIndexedRange};
use crate::text::{append_chars, lines_of, str_chars, str_views, string_from_chars, text_lines};
use crate::token::{
    SQLite3Keyword, SQLite3KeywordLikeIdentifier, SQLite3Operator, SQLite3PlaceholderKind,
    SQLite3Token, SQLite3TokenView, keyword_like_lookup, keyword_lookup,
};

verus! {

/// Digits in groups separated by `_`: the body of a hexadecimal literal that
/// sqlparser read as a blob.
pub const HEXADECIMAL_NUMERIC_LITERAL: &'static str = r"^\d+(_\d+)*$";

/// The rest of a decimal literal that sqlparser split off as a word.
pub const NUMERIC_LITERAL_CONTINUATION: &'static str = r"^(_\d+)+([eE](\d+(_\d+)*)?)?$";

/// The rest of a `0x...` literal that sqlparser split off as a word.
pub const HEXADECIMAL_LITERAL_CONTINUATION: &'static str = r"^X\d+(_\d+)*$";

/// A numbered placeholder `?NNN`.
pub const QUESTION_NUMBER: &'static str = r"^\?\d+$";

/// A tokenizer error at a zero-indexed location.
#[derive(Clone, Debug, Eq, PartialEq)]
pub struct ZeroIndexedTokenizerError {
    pub location: ZeroIndexedLocation,
    pub message: String,
}

impl<T: View> View for WithZeroIndexedRange<T> {
    type V = WithZeroIndexedRange<T::V>;

    open spec fn view(&self) -> WithZeroIndexedRange<T::V> {
        WithZeroIndexedRange { value: self.value@, range: self.range }
    }
}

/// The views of a sequence of tokens with ranges.
pub open spec fn token_views(v: Seq<WithZeroIndexedRange<SQLite3Token>>) -> Seq<
    WithZeroIndexedRange<SQLite3TokenView>,
> {
    v.map_values(|t: WithZeroIndexedRange<SQLite3Token>| t@)
}

// ---------------------------------------------------------------------------
// The specification
// ---------------------------------------------------------------------------

/// A single space or a single tab.
pub open spec fn is_blank_text(s: Seq<char>) -> bool {
    s == seq![' '] || s == seq!['\t']
}

/// `b` is a space following a space, or a tab following a tab.
pub open spec fn repeats_blank(a: RawTokenKindView, b: RawTokenKindView) -> bool {
    match (a, b) {
        (RawTokenKindView::Whitespace(x), RawTokenKindView::Whitespace(y)) => is_blank_text(y) && x
            == y,
        _ => false,
    }
}

/// Runs of spaces (and of tabs) merged into their first token.
pub open spec fn ws_merged(raw: Seq<RawTokenView>) -> Seq<RawTokenView>
    decreases raw.len(),
{
    if raw.len() == 0 {
        seq![]
    } else {
        let prev = ws_merged(raw.drop_last());
        if prev.len() > 0 && repeats_blank(prev.last().kind, raw.last().kind) {
            prev
        } else {
            prev.push(raw.last())
        }
    }
}

/// A one-based location that converts to a zero-based one in `usize`.
pub open spec fn raw_loc_ok(line: u64, column: u64) -> bool {
    1 <= line && 1 <= column && line - 1 <= usize::MAX && column - 1 <= usize::MAX
}

pub open spec fn zero_loc(line: u64, column: u64) -> ZeroIndexedLocation {
    ZeroIndexedLocation { line: (line - 1) as usize, column: (column - 1) as usize }
}

/// Every token has a location that converts to zero-based.
pub open spec fn raw_locations_ok(ts: Seq<RawTokenView>) -> bool {
    forall|i: int| 0 <= i < ts.len() ==> raw_loc_ok(#[trigger] ts[i].line, ts[i].column)
}

/// The end of `sql`: its last line, after its last character.
pub open spec fn eof_location(sql: Seq<char>) -> ZeroIndexedLocation {
    let lines = lines_of(sql);
    if lines.len() == 0 {
        ZeroIndexedLocation { line: 0, column: 0 }
    } else {
        ZeroIndexedLocation {
            line: (lines.len() - 1) as usize,
            column: lines.last().len() as usize,
        }
    }
}

/// Token `i` covers up to the start of the next token, the last one up to
/// the end of the text.
pub open spec fn token_range(ts: Seq<RawTokenView>, i: int, sql: Seq<char>) -> ZeroIndexedRange {
    ZeroIndexedRange {
        start: zero_loc(ts[i].line, ts[i].column),
        end: if i + 1 < ts.len() {
            zero_loc(ts[i + 1].line, ts[i + 1].column)
        } else {
            eof_location(sql)
        },
    }
}

/// A regular expression of this module matches `text`.
pub open spec fn regex_accepts(pattern: &str, text: Seq<char>) -> bool {
    regex_matches(pattern@, text) == Some(true)
}

/// The token that a word becomes.
pub open spec fn word_token(w: Seq<char>, quote: Option<char>) -> SQLite3TokenView {
    if quote is Some {
        SQLite3TokenView::Identifier(w, None)
    } else if w.len() > 0 && w[0] == ':' {
        SQLite3TokenView::Placeholder(w, SQLite3PlaceholderKind::ColonName)
    } else if w.len() > 0 && w[0] == '@' {
        SQLite3TokenView::Placeholder(w, SQLite3PlaceholderKind::AtName)
    } else if w.len() > 0 && w[0] == '$' {
        SQLite3TokenView::Placeholder(w, SQLite3PlaceholderKind::DollarName)
    } else {
        match keyword_lookup(unicode_uppercase(w), 0) {
            Some(k) => SQLite3TokenView::Keyword(k),
            None => SQLite3TokenView::Identifier(
                w,
                keyword_like_lookup(unicode_uppercase(w), 0),
            ),
        }
    }
}

/// The operator written `s`.
pub open spec fn operator_of(s: Seq<char>) -> Option<SQLite3Operator> {
    if s.len() == 1 {
        if s[0] == '=' {
            Some(SQLite3Operator::Eq)
        } else if s[0] == '<' {
            Some(SQLite3Operator::Lt)
        } else if s[0] == '>' {
            Some(SQLite3Operator::Gt)
        } else if s[0] == '+' {
            Some(SQLite3Operator::Plus)
        } else if s[0] == '-' {
            Some(SQLite3Operator::Minus)
        } else if s[0] == '*' {
            Some(SQLite3Operator::Mul)
        } else if s[0] == '/' {
            Some(SQLite3Operator::Div)
        } else if s[0] == '%' {
            Some(SQLite3Operator::Mod)
        } else if s[0] == '&' {
            Some(SQLite3Operator::Ampersand)
        } else if s[0] == '|' {
            Some(SQLite3Operator::Pipe)
        } else if s[0] == '~' {
            Some(SQLite3Operator::Tilde)
        } else {
            None
        }
    } else if s.len() == 2 {
        if s[0] == '=' && s[1] == '=' {
            Some(SQLite3Operator::DoubleEq)
        } else if s[0] == '<' && s[1] == '>' {
            Some(SQLite3Operator::Neq)
        } else if s[0] == '<' && s[1] == '=' {
            Some(SQLite3Operator::LtEq)
        } else if s[0] == '>' && s[1] == '=' {
            Some(SQLite3Operator::GtEq)
        } else if s[0] == '|' && s[1] == '|' {
            Some(SQLite3Operator::StringConcat)
        } else if s[0] == '<' && s[1] == '<' {
            Some(SQLite3Operator::ShiftLeft)
        } else if s[0] == '>' && s[1] == '>' {
            Some(SQLite3Operator::ShiftRight)
        } else if s[0] == '-' && s[1] == '>' {
            Some(SQLite3Operator::Arrow)
        } else {
            None
        }
    } else if s.len() == 3 && s[0] == '-' && s[1] == '>' && s[2] == '>' {
        Some(SQLite3Operator::LongArrow)
    } else {
        None
    }
}

/// The end-of-input marker that sqlparser writes as `EOF`.
pub open spec fn is_eof_text(s: Seq<char>) -> bool {
    s == seq!['E', 'O', 'F']
}

/// A token that SQLite does not know: a string literal of another dialect
/// (it holds a quote or starts with `$`), otherwise an operator.
pub open spec fn unknown_symbol(s: Seq<char>) -> SQLite3TokenView {
    if s.contains('\'') || s.contains('"') || (s.len() > 0 && s[0] == '$') {
        SQLite3TokenView::InvalidStringLiteral
    } else {
        SQLite3TokenView::InvalidOperator
    }
}

/// The token that a symbol becomes; `None` for the end-of-input marker.
pub open spec fn symbol_token(s: Seq<char>) -> Option<SQLite3TokenView> {
    if operator_of(s) is Some {
        Some(SQLite3TokenView::Operator(operator_of(s).unwrap()))
    } else if s == seq![','] {
        Some(SQLite3TokenView::Comma)
    } else if s == seq!['('] {
        Some(SQLite3TokenView::LParen)
    } else if s == seq![')'] {
        Some(SQLite3TokenView::RParen)
    } else if s == seq!['.'] {
        Some(SQLite3TokenView::Period)
    } else if s == seq![';'] {
        Some(SQLite3TokenView::SemiColon)
    } else if s == seq![':'] {
        Some(SQLite3TokenView::Placeholder(s, SQLite3PlaceholderKind::ColonName))
    } else if s == seq!['@'] {
        Some(SQLite3TokenView::Placeholder(s, SQLite3PlaceholderKind::AtName))
    } else if is_eof_text(s) {
        None
    } else {
        Some(unknown_symbol(s))
    }
}

/// The SQLite3 token that a raw token becomes; `None` for the end-of-input marker.
pub open spec fn classify(kind: RawTokenKindView) -> Option<SQLite3TokenView> {
    match kind {
        RawTokenKindView::Number(s, long) => if long {
            Some(SQLite3TokenView::InvalidNumericLiteral)
        } else {
            Some(SQLite3TokenView::NumericLiteral(s))
        },
        RawTokenKindView::HexStringLiteral(s) => if regex_accepts(HEXADECIMAL_NUMERIC_LITERAL, s) {
            Some(SQLite3TokenView::NumericLiteral(seq!['0', 'x'] + s))
        } else {
            Some(SQLite3TokenView::BlobLiteral(s))
        },
        RawTokenKindView::Word(w, q) => Some(word_token(w, q)),
        RawTokenKindView::Placeholder(s) => if s == seq!['?'] {
            Some(SQLite3TokenView::Placeholder(s, SQLite3PlaceholderKind::Question))
        } else if regex_accepts(QUESTION_NUMBER, s) {
            Some(SQLite3TokenView::Placeholder(s, SQLite3PlaceholderKind::QuestionNumber))
        } else {
            Some(SQLite3TokenView::InvalidToken)
        },
        RawTokenKindView::SingleQuotedString(s) => Some(SQLite3TokenView::StringLiteral(s)),
        RawTokenKindView::DoubleQuotedString(s) => Some(SQLite3TokenView::Identifier(s, None)),
        RawTokenKindView::Whitespace(s) => Some(
            SQLite3TokenView::Whitespace(
                !(s == seq![' '] || s == seq!['\t'] || s == seq!['\n']),
            ),
        ),
        RawTokenKindView::Char(_) => Some(SQLite3TokenView::InvalidToken),
        RawTokenKindView::Symbol(s) => symbol_token(s),
    }
}

/// The token that `last` becomes when the raw token `kind` at `r` directly
/// follows it and continues it, if it does.
pub open spec fn merged_token(
    last: WithZeroIndexedRange<SQLite3TokenView>,
    kind: RawTokenKindView,
    r: ZeroIndexedRange,
) -> Option<SQLite3TokenView> {
    if last.range.end != r.start {
        None
    } else {
        match last.value {
            SQLite3TokenView::NumericLiteral(s1) => match kind {
                RawTokenKindView::Word(w, None) => if regex_accepts(NUMERIC_LITERAL_CONTINUATION, w) {
                    Some(SQLite3TokenView::NumericLiteral(s1 + w))
                } else if s1 == seq!['0'] && regex_accepts(HEXADECIMAL_LITERAL_CONTINUATION, w) {
                    Some(SQLite3TokenView::NumericLiteral(s1 + w))
                } else {
                    None
                },
                RawTokenKindView::Symbol(sym) => if (sym == seq!['-'] || sym == seq!['+'])
                    && s1.len() > 0 && (s1.last() == 'e' || s1.last() == 'E') {
                    Some(SQLite3TokenView::NumericLiteral(s1 + sym))
                } else {
                    None
                },
                RawTokenKindView::Number(s2, false) => Some(
                    SQLite3TokenView::NumericLiteral(s1 + s2),
                ),
                _ => None,
            },
            SQLite3TokenView::Placeholder(s1, k) => if k == SQLite3PlaceholderKind::AtName || k
                == SQLite3PlaceholderKind::ColonName || k == SQLite3PlaceholderKind::DollarName {
                match kind {
                    RawTokenKindView::Word(w, None) => Some(SQLite3TokenView::Placeholder(s1 + w, k)),
                    RawTokenKindView::Number(s2, false) => Some(
                        SQLite3TokenView::Placeholder(s1 + s2, k),
                    ),
                    _ => None,
                }
            } else {
                None
            },
            _ => None,
        }
    }
}

/// One step of the conversion: merge into the last token or append.
pub open spec fn convert_step(
    acc: Seq<WithZeroIndexedRange<SQLite3TokenView>>,
    kind: RawTokenKindView,
    r: ZeroIndexedRange,
) -> Seq<WithZeroIndexedRange<SQLite3TokenView>> {
    if acc.len() > 0 && merged_token(acc.last(), kind, r) is Some {
        acc.update(
            acc.len() - 1,
            WithZeroIndexedRange {
                value: merged_token(acc.last(), kind, r).unwrap(),
                range: ZeroIndexedRange { start: acc.last().range.start, end: r.end },
            },
        )
    } else {
        match classify(kind) {
            Some(v) => acc.push(WithZeroIndexedRange { value: v, range: r }),
            None => acc,
        }
    }
}

/// The conversion of the first `n` (whitespace-merged) raw tokens.
pub open spec fn convert_tokens(ts: Seq<RawTokenView>, sql: Seq<char>, n: nat) -> Seq<
    WithZeroIndexedRange<SQLite3TokenView>,
>
    decreases n,
{
    if n == 0 || n > ts.len() {
        seq![]
    } else {
        convert_step(
            convert_tokens(ts, sql, (n - 1) as nat),
            ts[n - 1].kind,
            token_range(ts, n - 1, sql),
        )
    }
}

/// The SQLite3 tokens of `sql` given sqlparser's tokens `raw` of it.
pub open spec fn tokens_of(raw: Seq<RawTokenView>, sql: Seq<char>) -> Seq<
    WithZeroIndexedRange<SQLite3TokenView>,
> {
    let ts = ws_merged(raw);
    convert_tokens(ts, sql, ts.len())
}

/// What `tokenize_with_range_location` gives for `sql`: the tokens, or the
/// location and message of the error.
pub open spec fn tokenize_spec(sql: Seq<char>) -> Result<
    Seq<WithZeroIndexedRange<SQLite3TokenView>>,
    (ZeroIndexedLocation, Seq<char>),
> {
    match sqlparser_tokens(sql) {
        Ok(raw) => if raw_locations_ok(ws_merged(raw)) {
            Ok(tokens_of(raw, sql))
        } else {
            Err((ZeroIndexedLocation { line: 0, column: 0 }, bad_location_message()))
        },
        Err(e) => if raw_loc_ok(e.line, e.column) {
            Err((zero_loc(e.line, e.column), e.message))
        } else {
            Err((ZeroIndexedLocation { line: 0, column: 0 }, bad_location_message()))
        },
    }
}

/// The error reported when sqlparser gives a location that is not one-based.
pub open spec fn bad_location_message() -> Seq<char> {
    seq!['i', 'n', 'v', 'a', 'l', 'i', 'd', ' ', 'l', 'o', 'c', 'a', 't', 'i', 'o', 'n']
}

/// The end-of-input marker of sqlparser.
pub open spec fn is_eof_marker(k: RawTokenKindView) -> bool {
    k matches RawTokenKindView::Symbol(s) && is_eof_text(s)
}

/// sqlparser handed out no end-of-input marker before its last token.
pub open spec fn no_inner_eof_marker(raw: Seq<RawTokenView>) -> bool {
    forall|i: int| 0 <= i < ws_merged(raw).len() - 1 ==> !is_eof_marker(#[trigger] ws_merged(raw)[i].kind)
}

/// Where sqlparser's tokenizer places the tokens it hands out for `sql`
/// (see [`crate::bridge::sqlparser_tokenize`]): none is its end-of-input
/// marker; each begins at a character of `sql`, whose one-based line and
/// column are its location, so the first is at 1:1, none comes before the
/// one before it, and none lies past the end of the text; and a text has
/// a token exactly when it is not empty.
pub open spec fn raw_tokens_placed(sql: Seq<char>, raw: Seq<RawTokenView>) -> bool {
    &&& raw_tokens_in_order(sql, raw)
    &&& sql.len() > 0 <==> raw.len() > 0
}

/// A token starts within its line of `sql` (as [`lines_of`] splits it):
/// on an existing line, at most one past its last character; and a `.`
/// starts at a `.` of that line.
pub open spec fn raw_token_within_line(sql: Seq<char>, t: RawTokenView) -> bool {
    let lines = lines_of(sql);
    let z = zero_loc(t.line, t.column);
    &&& z.line < lines.len()
    &&& z.column <= lines[z.line as int].len()
    &&& t.kind == RawTokenKindView::Symbol(seq!['.']) ==> z.column < lines[z.line as int].len()
        && lines[z.line as int][z.column as int] == '.'
}

/// No token is the end-of-input marker; the locations start at 1:1, move
/// forward from token to token, and lie within the text, each within its
/// line; only a line break can start at the end of the text.
pub open spec fn raw_tokens_in_order(sql: Seq<char>, raw: Seq<RawTokenView>) -> bool {
    &&& forall|i: int|
        0 <= i < raw.len() ==> {
            &&& !is_eof_marker(#[trigger] raw[i].kind)
            &&& raw_loc_ok(raw[i].line, raw[i].column)
            &&& loc_le(zero_loc(raw[i].line, raw[i].column), eof_location(sql))
            &&& raw_token_within_line(sql, raw[i])
            &&& zero_loc(raw[i].line, raw[i].column) == eof_location(sql) ==> raw[i].kind
                == RawTokenKindView::Whitespace(seq!['\n'])
        }
    &&& raw.len() > 0 ==> raw[0].line == 1 && raw[0].column == 1
    &&& forall|i: int, j: int|
        0 <= i < j < raw.len() ==> loc_lt(
            zero_loc((#[trigger] raw[i]).line, raw[i].column),
            zero_loc((#[trigger] raw[j]).line, raw[j].column),
        )
}

proof fn lemma_ws_merged_placed(sql: Seq<char>, raw: Seq<RawTokenView>)
    requires
        raw_tokens_in_order(sql, raw),
    ensures
        raw_tokens_in_order(sql, ws_merged(raw)),
        raw.len() > 0 ==> ws_merged(raw).len() > 0 && ws_merged(raw)[0] == raw[0],
        raw.len() > 0 ==> forall|i: int|
            0 <= i < ws_merged(raw).len() ==> loc_le(
                zero_loc((#[trigger] ws_merged(raw)[i]).line, ws_merged(raw)[i].column),
                zero_loc(raw.last().line, raw.last().column),
            ),
    decreases raw.len(),
{
    if raw.len() > 0 {
        let init = raw.drop_last();
        assert(raw_tokens_in_order(sql, init)) by {
            assert forall|i: int, j: int| 0 <= i < j < init.len() implies loc_le(
                zero_loc((#[trigger] init[i]).line, init[i].column),
                zero_loc((#[trigger] init[j]).line, init[j].column),
            ) by {
                assert(init[i] == raw[i] && init[j] == raw[j]);
            }
            assert forall|i: int| 0 <= i < init.len() implies {
                &&& !is_eof_marker(#[trigger] init[i].kind)
                &&& raw_loc_ok(init[i].line, init[i].column)
                &&& loc_le(zero_loc(init[i].line, init[i].column), eof_location(sql))
            } by {
                assert(init[i] == raw[i]);
            }
        }
        lemma_ws_merged_placed(sql, init);
        let prev = ws_merged(init);
        let ws = ws_merged(raw);
        let last = raw.last();
        if init.len() > 0 {
            assert(loc_le(
                zero_loc(init.last().line, init.last().column),
                zero_loc(last.line, last.column),
            )) by {
                assert(init.last() == raw[raw.len() - 2]);
            }
        }
        if !(prev.len() > 0 && repeats_blank(prev.last().kind, last.kind)) {
            assert(ws == prev.push(last));
            assert forall|i: int| 0 <= i < ws.len() implies loc_le(
                zero_loc((#[trigger] ws[i]).line, ws[i].column),
                zero_loc(last.line, last.column),
            ) by {
                if i < prev.len() {
                    assert(ws[i] == prev[i]);
                }
            }
            assert forall|i: int, j: int| 0 <= i < j < ws.len() implies loc_le(
                zero_loc((#[trigger] ws[i]).line, ws[i].column),
                zero_loc((#[trigger] ws[j]).line, ws[j].column),
            ) by {
                assert(ws[i] == prev[i]);
                if j < prev.len() {
                    assert(ws[j] == prev[j]);
                }
            }
            assert forall|i: int| 0 <= i < ws.len() implies {
                &&& !is_eof_marker(#[trigger] ws[i].kind)
                &&& raw_loc_ok(ws[i].line, ws[i].column)
                &&& loc_le(zero_loc(ws[i].line, ws[i].column), eof_location(sql))
            } by {
                if i < prev.len() {
                    assert(ws[i] == prev[i]);
                }
            }
            if init.len() == 0 {
                assert(ws[0] == raw[0]);
            }
        } else {
            assert(ws == prev);
            assert(init.len() > 0);
            assert(init[0] == raw[0]);
        }
    }
}

/// A token range from sqlparser's placed tokens does not run backwards.
proof fn lemma_token_range_forward(ts: Seq<RawTokenView>, sql: Seq<char>, i: int)
    requires
        raw_tokens_in_order(sql, ts),
        0 <= i < ts.len(),
    ensures
        loc_le(token_range(ts, i, sql).start, token_range(ts, i, sql).end),
{
    if i + 1 < ts.len() {
        assert(loc_le(zero_loc(ts[i].line, ts[i].column), zero_loc(ts[i + 1].line, ts[i + 1].column)));
    } else {
        assert(!is_eof_marker(ts[i].kind));
        assert(loc_le(zero_loc(ts[i].line, ts[i].column), eof_location(sql)));
    }
}

proof fn lemma_convert_forward(ts: Seq<RawTokenView>, sql: Seq<char>, n: nat)
    requires
        raw_tokens_in_order(sql, ts),
        n <= ts.len(),
    ensures
        forall|k: int|
            0 <= k < convert_tokens(ts, sql, n).len() ==> loc_le(
                (#[trigger] convert_tokens(ts, sql, n)[k]).range.start,
                convert_tokens(ts, sql, n)[k].range.end,
            ),
        n >= 1 ==> convert_tokens(ts, sql, n).len() > 0 && convert_tokens(ts, sql, n)[0].range.start == token_range(
            ts,
            0,
            sql,
        ).start,
    decreases n,
{
    if n > 0 {
        let m = (n - 1) as nat;
        lemma_convert_forward(ts, sql, m);
        lemma_convert_adjacent(ts, sql, m);
        lemma_token_range_forward(ts, sql, n - 1);
        let prev = convert_tokens(ts, sql, m);
        let kind = ts[n - 1].kind;
        let r = token_range(ts, n - 1, sql);
        let acc = convert_tokens(ts, sql, n);
        assert(acc == convert_step(prev, kind, r));
        assert(!is_eof_marker(kind));
        if m >= 1 {
            assert(!is_eof_marker(ts[m - 1].kind));
            assert(prev.last().range.end == token_range(ts, m - 1, sql).end);
            assert(token_range(ts, m - 1, sql).end == r.start);
            assert(loc_le(prev.last().range.start, prev.last().range.end));
        }
        if prev.len() > 0 && merged_token(prev.last(), kind, r) is Some {
            assert forall|k: int| 0 <= k < acc.len() implies loc_le(
                (#[trigger] acc[k]).range.start,
                acc[k].range.end,
            ) by {
                if k < acc.len() - 1 {
                    assert(acc[k] == prev[k]);
                }
            }
        } else {
            assert(classify(kind) is Some);
            assert forall|k: int| 0 <= k < acc.len() implies loc_le(
                (#[trigger] acc[k]).range.start,
                acc[k].range.end,
            ) by {
                if k < prev.len() {
                    assert(acc[k] == prev[k]);
                }
            }
        }
    }
}

/// The tokens tile the text: where sqlparser places its tokens as
/// [`raw_tokens_placed`] says (which its wrapper's contract states of every
/// call), the first token starts at 0:0, no token runs backwards, each
/// ends where the next starts, and the last ends at the end of the text.
pub proof fn law_tokens_tile_the_text(sql: Seq<char>)
    requires
        sqlparser_tokens(sql) matches Ok(raw) ==> raw_tokens_placed(sql, raw),
    ensures
        tokenize_spec(sql) matches Ok(ts) ==> ts.len() > 0 ==> tokens_tile(sql, ts),
        tokenize_spec(sql) matches Ok(ts) ==> (sql.len() > 0 ==> ts.len() > 0),
{
    if let Ok(raw) = sqlparser_tokens(sql) {
        lemma_ws_merged_placed(sql, raw);
        let ws = ws_merged(raw);
        if raw_locations_ok(ws) && ws.len() > 0 {
            assert forall|i: int| 0 <= i < ws.len() - 1 implies !is_eof_marker(#[trigger] ws[i].kind) by {}
            lemma_convert_adjacent(ws, sql, ws.len());
            lemma_convert_forward(ws, sql, ws.len());
            assert(!is_eof_marker(ws[ws.len() - 1].kind));
            lemma_token_range_forward(ws, sql, ws.len() - 1);
            assert(ws[0] == raw[0]);
        }
    }
}

/// Every token starts within its line, ends on an existing line, and a
/// `.` starts at a `.` of its line.
pub open spec fn tokens_within_lines(sql: Seq<char>, ts: Seq<WithZeroIndexedRange<SQLite3TokenView>>) -> bool {
    let lines = lines_of(sql);
    forall|k: int|
        0 <= k < ts.len() ==> {
            &&& (#[trigger] ts[k]).range.start.line < lines.len()
            &&& ts[k].range.start.column <= lines[ts[k].range.start.line as int].len()
            &&& ts[k].range.end.line < lines.len()
            &&& ts[k].value is Period ==> ts[k].range.start.column < lines[ts[k].range.start.line as int].len()
                && lines[ts[k].range.start.line as int][ts[k].range.start.column as int] == '.'
        }
}

/// Every `;` covers at least one character.
pub open spec fn semicolons_cover_text(ts: Seq<WithZeroIndexedRange<SQLite3TokenView>>) -> bool {
    forall|k: int| 0 <= k < ts.len() && (#[trigger] ts[k]).value is SemiColon ==> loc_lt(ts[k].range.start, ts[k].range.end)
}

proof fn lemma_convert_within(ts: Seq<RawTokenView>, sql: Seq<char>, n: nat)
    requires
        raw_tokens_in_order(sql, ts),
        n <= ts.len(),
    ensures
        tokens_within_lines(sql, convert_tokens(ts, sql, n)),
        semicolons_cover_text(convert_tokens(ts, sql, n)),
    decreases n,
{
    if n > 0 {
        let m = (n - 1) as nat;
        lemma_convert_within(ts, sql, m);
        let prev = convert_tokens(ts, sql, m);
        let kind = ts[n - 1].kind;
        let r = token_range(ts, n - 1, sql);
        let acc = convert_tokens(ts, sql, n);
        let lines = lines_of(sql);
        assert(acc == convert_step(prev, kind, r));
        assert(!is_eof_marker(ts[n - 1].kind));
        assert(raw_token_within_line(sql, ts[n - 1]));
        assert(r.end.line < lines.len()) by {
            if n < ts.len() {
                assert(!is_eof_marker(ts[n as int].kind));
                assert(raw_token_within_line(sql, ts[n as int]));
            }
        }
        if prev.len() > 0 && merged_token(prev.last(), kind, r) is Some {
            assert forall|k: int| 0 <= k < acc.len() && (#[trigger] acc[k]).value is SemiColon implies loc_lt(
                acc[k].range.start,
                acc[k].range.end,
            ) by {
                assert(k < acc.len() - 1);
                assert(acc[k] == prev[k]);
            }
            assert forall|k: int| 0 <= k < acc.len() implies {
                &&& (#[trigger] acc[k]).range.start.line < lines.len()
                &&& acc[k].range.start.column <= lines[acc[k].range.start.line as int].len()
                &&& acc[k].range.end.line < lines.len()
                &&& acc[k].value is Period ==> acc[k].range.start.column < lines[acc[k].range.start.line as int].len()
                    && lines[acc[k].range.start.line as int][acc[k].range.start.column as int] == '.'
            } by {
                if k < acc.len() - 1 {
                    assert(acc[k] == prev[k]);
                } else {
                    assert(acc[k].range.start == prev[k].range.start);
                }
            }
        } else {
            assert forall|k: int| 0 <= k < acc.len() && (#[trigger] acc[k]).value is SemiColon implies loc_lt(
                acc[k].range.start,
                acc[k].range.end,
            ) by {
                if k < prev.len() {
                    assert(acc[k] == prev[k]);
                } else {
                    assert(acc[k].range == r);
                    assert(kind == RawTokenKindView::Symbol(seq![';']));
                    if n < ts.len() {
                        assert(loc_lt(zero_loc(ts[n - 1].line, ts[n - 1].column), zero_loc(ts[n as int].line, ts[n as int].column)));
                    } else {
                        assert(loc_le(zero_loc(ts[n - 1].line, ts[n - 1].column), eof_location(sql)));
                        assert(zero_loc(ts[n - 1].line, ts[n - 1].column) != eof_location(sql));
                    }
                }
            }
            assert forall|k: int| 0 <= k < acc.len() implies {
                &&& (#[trigger] acc[k]).range.start.line < lines.len()
                &&& acc[k].range.start.column <= lines[acc[k].range.start.line as int].len()
                &&& acc[k].range.end.line < lines.len()
                &&& acc[k].value is Period ==> acc[k].range.start.column < lines[acc[k].range.start.line as int].len()
                    && lines[acc[k].range.start.line as int][acc[k].range.start.column as int] == '.'
            } by {
                if k < prev.len() {
                    assert(acc[k] == prev[k]);
                } else {
                    assert(acc[k].range == r);
                    assert(acc[k].value is Period ==> kind == RawTokenKindView::Symbol(seq!['.']));
                }
            }
        }
    }
}

/// Where sqlparser places its tokens as [`raw_tokens_placed`] says, every
/// token of a script starts within its line, ends on an existing line,
/// and a `.` starts at a `.` of its line; and every `;` covers at least
/// one character.
pub proof fn law_tokens_within_lines(sql: Seq<char>)
    requires
        sqlparser_tokens(sql) matches Ok(raw) ==> raw_tokens_placed(sql, raw),
    ensures
        tokenize_spec(sql) matches Ok(ts) ==> tokens_within_lines(sql, ts),
        tokenize_spec(sql) matches Ok(ts) ==> semicolons_cover_text(ts),
{
    if let Ok(raw) = sqlparser_tokens(sql) {
        lemma_ws_merged_placed(sql, raw);
        let ws = ws_merged(raw);
        lemma_convert_within(ws, sql, ws.len());
    }
}

/// The tokens `ts` tile `sql`: the first starts at 0:0, none runs
/// backwards, each ends where the next starts, and the last ends at the
/// end of the text.
pub open spec fn tokens_tile(sql: Seq<char>, ts: Seq<WithZeroIndexedRange<SQLite3TokenView>>) -> bool {
    &&& ts.len() > 0 ==> ts[0].range.start == (ZeroIndexedLocation { line: 0, column: 0 })
    &&& forall|i: int| 0 <= i < ts.len() ==> loc_le((#[trigger] ts[i]).range.start, ts[i].range.end)
    &&& forall|i: int| 0 <= i < ts.len() - 1 ==> (#[trigger] ts[i]).range.end == ts[i + 1].range.start
    &&& ts.len() > 0 ==> ts.last().range.end == eof_location(sql)
}

proof fn lemma_convert_adjacent(ts: Seq<RawTokenView>, sql: Seq<char>, n: nat)
    requires
        n <= ts.len(),
        forall|i: int| 0 <= i < n - 1 ==> !is_eof_marker(#[trigger] ts[i].kind),
    ensures
        forall|i: int|
            0 <= i < convert_tokens(ts, sql, n).len() - 1 ==> (#[trigger] convert_tokens(ts, sql, n)[i]).range.end
                == convert_tokens(ts, sql, n)[i + 1].range.start,
        n >= 1 && !is_eof_marker(ts[n - 1].kind) ==> convert_tokens(ts, sql, n).len() > 0
            && convert_tokens(ts, sql, n).last().range.end == token_range(ts, n - 1, sql).end,
    decreases n,
{
    if n > 0 {
        let m = (n - 1) as nat;
        lemma_convert_adjacent(ts, sql, m);
        let prev = convert_tokens(ts, sql, m);
        let kind = ts[n - 1].kind;
        let r = token_range(ts, n - 1, sql);
        let acc = convert_tokens(ts, sql, n);
        assert(acc == convert_step(prev, kind, r));
        if m >= 1 {
            assert(!is_eof_marker(ts[m - 1].kind));
            assert(prev.last().range.end == r.start);
        }
        if prev.len() > 0 && merged_token(prev.last(), kind, r) is Some {
            assert forall|i: int| 0 <= i < acc.len() - 1 implies (#[trigger] acc[i]).range.end
                == acc[i + 1].range.start by {
                assert(acc[i] == prev[i]);
                if i + 1 < acc.len() - 1 {
                    assert(acc[i + 1] == prev[i + 1]);
                }
            }
        } else if classify(kind) is Some {
            assert forall|i: int| 0 <= i < acc.len() - 1 implies (#[trigger] acc[i]).range.end
                == acc[i + 1].range.start by {
                assert(acc[i] == prev[i]);
                if i + 1 < acc.len() - 1 {
                    assert(acc[i + 1] == prev[i + 1]);
                }
            }
        } else {
            assert(is_eof_marker(kind));
        }
    }
}

/// Each token covers the text up to where the next one starts: as long as
/// sqlparser hands out no end-of-input marker before its last token, the
/// tokens of a script follow one another without gaps, and unless that
/// last token is the marker, the last one ends at the end of the text.
pub proof fn law_tokens_adjacent(sql: Seq<char>)
    requires
        sqlparser_tokens(sql) matches Ok(raw) ==> no_inner_eof_marker(raw),
    ensures
        tokenize_spec(sql) matches Ok(ts) ==> forall|i: int|
            0 <= i < ts.len() - 1 ==> (#[trigger] ts[i]).range.end == ts[i + 1].range.start,
        tokenize_spec(sql) matches Ok(ts) ==> (sqlparser_tokens(sql) matches Ok(raw) && ws_merged(raw).len()
            > 0 && !is_eof_marker(ws_merged(raw).last().kind) ==> ts.len() > 0 && ts.last().range.end
            == eof_location(sql)),
{
    if let Ok(raw) = sqlparser_tokens(sql) {
        let ts = ws_merged(raw);
        assert forall|i: int| 0 <= i < ts.len() - 1 implies !is_eof_marker(#[trigger] ts[i].kind) by {
            assert(!is_eof_marker(ws_merged(raw)[i].kind));
        }
        lemma_convert_adjacent(ts, sql, ts.len());
    }
}

// ---------------------------------------------------------------------------
// The implementation
// ---------------------------------------------------------------------------

fn is_blank_string(s: &String) -> (r: bool)
    ensures
        r == is_blank_text(s@),
{
    let c = str_chars(s.as_str());
    chars_is(&c, ' ') || chars_is(&c, '\t')
}

fn raw_repeats_blank(a: &RawTokenKind, b: &RawTokenKind) -> (r: bool)
    ensures
        r == repeats_blank(a@, b@),
{
    match (a, b) {
        (RawTokenKind::Whitespace(x), RawTokenKind::Whitespace(y)) => is_blank_string(y) && *x
            == *y,
        _ => false,
    }
}

/// The indices of the tokens of `raw` that remain once runs of spaces and
/// of tabs are merged.
fn merge_whitespace(raw: &Vec<RawToken>) -> (keep: Vec<usize>)
    ensures
        forall|j: int| 0 <= j < keep@.len() ==> #[trigger] keep@[j] < raw@.len(),
        keep@.map_values(|i: usize| raw@[i as int]@) == ws_merged(raw_views(raw@)),
{
    let mut keep: Vec<usize> = Vec::new();
    let mut i: usize = 0;
    while i < raw.len()
        invariant
            i <= raw@.len(),
            forall|j: int| 0 <= j < keep@.len() ==> #[trigger] keep@[j] < i,
            keep@.map_values(|k: usize| raw@[k as int]@) == ws_merged(
                raw_views(raw@).subrange(0, i as int),
            ),
        decreases raw@.len() - i,
    {
        let ghost prefix = raw_views(raw@).subrange(0, i as int);
        let ghost next = raw_views(raw@).subrange(0, i + 1);
        proof {
            assert(next.drop_last() =~= prefix);
            assert(next.last() == raw@[i as int]@);
        }
        let skip = keep.len() > 0 && raw_repeats_blank(&raw[keep[keep.len() - 1]].kind, &raw[i].kind);
        proof {
            if keep@.len() > 0 {
                let m = keep@.map_values(|k: usize| raw@[k as int]@);
                assert(m.last() == raw@[keep@[keep@.len() - 1] as int]@);
            }
        }
        if !skip {
            let ghost old_keep = keep@;
            keep.push(i);
            proof {
                assert(keep@.map_values(|k: usize| raw@[k as int]@) =~= old_keep.map_values(
                    |k: usize| raw@[k as int]@,
                ).push(raw@[i as int]@));
            }
        }
        i = i + 1;
    }
    proof {
        assert(raw_views(raw@).subrange(0, i as int) =~= raw_views(raw@));
    }
    keep
}

fn raw_location_ok(t: &RawToken) -> (r: bool)
    ensures
        r == raw_loc_ok(t.line, t.column),
{
    1 <= t.line && 1 <= t.column && t.line - 1 <= usize::MAX as u64 && t.column - 1
        <= usize::MAX as u64
}

fn to_zero_loc(line: u64, column: u64) -> (r: ZeroIndexedLocation)
    requires
        raw_loc_ok(line, column),
    ensures
        r == zero_loc(line, column),
{
    ZeroIndexedLocation { line: (line - 1) as usize, column: (column - 1) as usize }
}

/// The end location of `sql`.
fn end_of_text(sql: &str) -> (r: ZeroIndexedLocation)
    ensures
        r == eof_location(sql@),
{
    let lines = text_lines(sql);
    if lines.len() == 0 {
        ZeroIndexedLocation { line: 0, column: 0 }
    } else {
        let last = lines[lines.len() - 1];
        proof {
            assert(str_views(lines@).last() == last@);
        }
        ZeroIndexedLocation { line: lines.len() - 1, column: last.unicode_len() }
    }
}

fn chars_is(s: &Vec<char>, c: char) -> (r: bool)
    ensures
        r == (s@ == seq![c]),
{
    let r = s.len() == 1 && s[0] == c;
    proof {
        if s@.len() == 1 && s@[0] == c {
            assert(s@ =~= seq![c]);
        }
    }
    r
}

fn operator_of_chars(s: &Vec<char>) -> (r: Option<SQLite3Operator>)
    ensures
        r == operator_of(s@),
{
    let n = s.len();
    if n == 1 {
        let c = s[0];
        if c == '=' {
            Some(SQLite3Operator::Eq)
        } else if c == '<' {
            Some(SQLite3Operator::Lt)
        } else if c == '>' {
            Some(SQLite3Operator::Gt)
        } else if c == '+' {
            Some(SQLite3Operator::Plus)
        } else if c == '-' {
            Some(SQLite3Operator::Minus)
        } else if c == '*' {
            Some(SQLite3Operator::Mul)
        } else if c == '/' {
            Some(SQLite3Operator::Div)
        } else if c == '%' {
            Some(SQLite3Operator::Mod)
        } else if c == '&' {
            Some(SQLite3Operator::Ampersand)
        } else if c == '|' {
            Some(SQLite3Operator::Pipe)
        } else if c == '~' {
            Some(SQLite3Operator::Tilde)
        } else {
            None
        }
    } else if n == 2 {
        let (a, b) = (s[0], s[1]);
        if a == '=' && b == '=' {
            Some(SQLite3Operator::DoubleEq)
        } else if a == '<' && b == '>' {
            Some(SQLite3Operator::Neq)
        } else if a == '<' && b == '=' {
            Some(SQLite3Operator::LtEq)
        } else if a == '>' && b == '=' {
            Some(SQLite3Operator::GtEq)
        } else if a == '|' && b == '|' {
            Some(SQLite3Operator::StringConcat)
        } else if a == '<' && b == '<' {
            Some(SQLite3Operator::ShiftLeft)
        } else if a == '>' && b == '>' {
            Some(SQLite3Operator::ShiftRight)
        } else if a == '-' && b == '>' {
            Some(SQLite3Operator::Arrow)
        } else {
            None
        }
    } else if n == 3 && s[0] == '-' && s[1] == '>' && s[2] == '>' {
        Some(SQLite3Operator::LongArrow)
    } else {
        None
    }
}

fn contains_char(s: &Vec<char>, c: char) -> (r: bool)
    ensures
        r == s@.contains(c),
{
    let mut i: usize = 0;
    while i < s.len()
        invariant
            i <= s@.len(),
            forall|k: int| 0 <= k < i ==> s@[k] != c,
        decreases s@.len() - i,
    {
        if s[i] == c {
            return true;
        }
        i = i + 1;
    }
    false
}

fn symbol_to_token(s: &String) -> (r: Option<SQLite3Token>)
    ensures
        match r {
            Some(t) => symbol_token(s@) == Some(t@),
            None => symbol_token(s@) is None,
        },
{
    let c = str_chars(s.as_str());
    if let Some(op) = operator_of_chars(&c) {
        Some(SQLite3Token::Operator(op))
    } else if chars_is(&c, ',') {
        Some(SQLite3Token::Comma)
    } else if chars_is(&c, '(') {
        Some(SQLite3Token::LParen)
    } else if chars_is(&c, ')') {
        Some(SQLite3Token::RParen)
    } else if chars_is(&c, '.') {
        Some(SQLite3Token::Period)
    } else if chars_is(&c, ';') {
        Some(SQLite3Token::SemiColon)
    } else if chars_is(&c, ':') {
        Some(SQLite3Token::Placeholder(s.clone(), SQLite3PlaceholderKind::ColonName))
    } else if chars_is(&c, '@') {
        Some(SQLite3Token::Placeholder(s.clone(), SQLite3PlaceholderKind::AtName))
    } else if c.len() == 3 && c[0] == 'E' && c[1] == 'O' && c[2] == 'F' {
        proof {
            assert(c@ =~= seq!['E', 'O', 'F']);
        }
        None
    } else {
        proof {
            if c@ == seq!['E', 'O', 'F'] {
                assert(c@[0] == 'E');
            }
        }
        if contains_char(&c, '\'') || contains_char(&c, '"') || (c.len() > 0 && c[0] == '$') {
            Some(SQLite3Token::InvalidStringLiteral)
        } else {
            Some(SQLite3Token::InvalidOperator)
        }
    }
}

/// `regex_is_match` with an invalid pattern taken as no match.
fn is_match(pattern: &str, text: &str) -> (r: bool)
    ensures
        r == (regex_matches(pattern@, text@) == Some(true)),
{
    match regex_is_match(pattern, text) {
        Some(b) => b,
        None => false,
    }
}

fn word_to_token(w: &String, quote: Option<char>) -> (r: SQLite3Token)
    ensures
        r@ == word_token(w@, quote),
{
    let c = str_chars(w.as_str());
    if quote.is_some() {
        SQLite3Token::Identifier(w.clone(), None)
    } else if c.len() > 0 && c[0] == ':' {
        SQLite3Token::Placeholder(w.clone(), SQLite3PlaceholderKind::ColonName)
    } else if c.len() > 0 && c[0] == '@' {
        SQLite3Token::Placeholder(w.clone(), SQLite3PlaceholderKind::AtName)
    } else if c.len() > 0 && c[0] == '$' {
        SQLite3Token::Placeholder(w.clone(), SQLite3PlaceholderKind::DollarName)
    } else {
        let upper = str_to_uppercase(w.as_str());
        match SQLite3Keyword::from_str(upper.as_str()) {
            Ok(k) => SQLite3Token::Keyword(k),
            Err(_) => {
                let like = match SQLite3KeywordLikeIdentifier::from_str(upper.as_str()) {
                    Ok(k) => Some(k),
                    Err(_) => None,
                };
                SQLite3Token::Identifier(w.clone(), like)
            },
        }
    }
}

fn concat_strings(a: &String, b: &String) -> (r: String)
    ensures
        r@ == a@ + b@,
{
    let mut v = str_chars(a.as_str());
    let w = str_chars(b.as_str());
    append_chars(&mut v, &w);
    string_from_chars(&v)
}

fn classify_raw(kind: &RawTokenKind) -> (r: Option<SQLite3Token>)
    ensures
        match r {
            Some(t) => classify(kind@) == Some(t@),
            None => classify(kind@) is None,
        },
{
    match kind {
        RawTokenKind::Number(s, long) => if *long {
            Some(SQLite3Token::InvalidNumericLiteral)
        } else {
            Some(SQLite3Token::NumericLiteral(s.clone()))
        },
        RawTokenKind::HexStringLiteral(s) => if is_match(HEXADECIMAL_NUMERIC_LITERAL, s.as_str()) {
            let mut v: Vec<char> = Vec::new();
            v.push('0');
            v.push('x');
            let w = str_chars(s.as_str());
            append_chars(&mut v, &w);
            proof {
                assert(v@ =~= seq!['0', 'x'] + s@);
            }
            Some(SQLite3Token::NumericLiteral(string_from_chars(&v)))
        } else {
            Some(SQLite3Token::BlobLiteral(s.clone()))
        },
        RawTokenKind::Word(w, q) => Some(word_to_token(w, *q)),
        RawTokenKind::Placeholder(s) => {
            let c = str_chars(s.as_str());
            if chars_is(&c, '?') {
                Some(SQLite3Token::Placeholder(s.clone(), SQLite3PlaceholderKind::Question))
            } else if is_match(QUESTION_NUMBER, s.as_str()) {
                Some(SQLite3Token::Placeholder(s.clone(), SQLite3PlaceholderKind::QuestionNumber))
            } else {
                Some(SQLite3Token::InvalidToken)
            }
        },
        RawTokenKind::SingleQuotedString(s) => Some(SQLite3Token::StringLiteral(s.clone())),
        RawTokenKind::DoubleQuotedString(s) => Some(SQLite3Token::Identifier(s.clone(), None)),
        RawTokenKind::Whitespace(s) => {
            let c = str_chars(s.as_str());
            let plain = chars_is(&c, ' ') || chars_is(&c, '\t') || chars_is(&c, '\n');
            Some(SQLite3Token::Whitespace(!plain))
        },
        RawTokenKind::Char(_) => Some(SQLite3Token::InvalidToken),
        RawTokenKind::Symbol(s) => symbol_to_token(s),
    }
}

fn ends_with_exponent(s: &String) -> (r: bool)
    ensures
        r == (s@.len() > 0 && (s@.last() == 'e' || s@.last() == 'E')),
{
    let c = str_chars(s.as_str());
    c.len() > 0 && (c[c.len() - 1] == 'e' || c[c.len() - 1] == 'E')
}

/// Merges the raw token `kind` at `r` into `last` when it continues it.
fn merge_tokens(last: &WithZeroIndexedRange<SQLite3Token>, kind: &RawTokenKind, r: &ZeroIndexedRange) -> (res:
    Option<SQLite3Token>)
    ensures
        match res {
            Some(t) => merged_token(last@, kind@, *r) == Some(t@),
            None => merged_token(last@, kind@, *r) is None,
        },
{
    if last.range.end != r.start {
        return None;
    }
    match &last.value {
        SQLite3Token::NumericLiteral(s1) => match kind {
            RawTokenKind::Word(w, None) => {
                if is_match(NUMERIC_LITERAL_CONTINUATION, w.as_str()) {
                    return Some(SQLite3Token::NumericLiteral(concat_strings(s1, w)));
                }
                let c = str_chars(s1.as_str());
                if chars_is(&c, '0') && is_match(HEXADECIMAL_LITERAL_CONTINUATION, w.as_str()) {
                    return Some(SQLite3Token::NumericLiteral(concat_strings(s1, w)));
                }
                None
            },
            RawTokenKind::Symbol(sym) => {
                let c = str_chars(sym.as_str());
                if (chars_is(&c, '-') || chars_is(&c, '+')) && ends_with_exponent(s1) {
                    Some(SQLite3Token::NumericLiteral(concat_strings(s1, sym)))
                } else {
                    None
                }
            },
            RawTokenKind::Number(s2, false) => Some(
                SQLite3Token::NumericLiteral(concat_strings(s1, s2)),
            ),
            _ => None,
        },
        SQLite3Token::Placeholder(s1, k) => {
            if matches!(
                k,
                SQLite3PlaceholderKind::AtName | SQLite3PlaceholderKind::ColonName
                    | SQLite3PlaceholderKind::DollarName
            ) {
                match kind {
                    RawTokenKind::Word(w, None) => Some(
                        SQLite3Token::Placeholder(concat_strings(s1, w), *k),
                    ),
                    RawTokenKind::Number(s2, false) => Some(
                        SQLite3Token::Placeholder(concat_strings(s1, s2), *k),
                    ),
                    _ => None,
                }
            } else {
                None
            }
        },
        _ => None,
    }
}

/// The SQLite3 tokens of `sql`, given the tokens `raw` that sqlparser made
/// of it.
pub fn tokens_from_raw(raw: &Vec<RawToken>, sql: &str) -> (r: Vec<WithZeroIndexedRange<SQLite3Token>>)
    requires
        raw_locations_ok(ws_merged(raw_views(raw@))),
    ensures
        token_views(r@) == tokens_of(raw_views(raw@), sql@),
{
    let keep = merge_whitespace(raw);
    let ghost ts = ws_merged(raw_views(raw@));
    let eof = end_of_text(sql);
    let mut out: Vec<WithZeroIndexedRange<SQLite3Token>> = Vec::new();
    let mut j: usize = 0;
    while j < keep.len()
        invariant
            j <= keep@.len(),
            ts == ws_merged(raw_views(raw@)),
            ts.len() == keep@.len(),
            raw_locations_ok(ts),
            forall|k: int| 0 <= k < keep@.len() ==> #[trigger] keep@[k] < raw@.len(),
            forall|k: int| 0 <= k < keep@.len() ==> ts[k] == #[trigger] raw@[keep@[k] as int]@,
            eof == eof_location(sql@),
            token_views(out@) == convert_tokens(ts, sql@, j as nat),
        decreases keep@.len() - j,
    {
        proof {
            assert(keep@.map_values(|i: usize| raw@[i as int]@)[j as int] == ts[j as int]);
        }
        let t = &raw[keep[j]];
        proof {
            assert(raw_loc_ok(ts[j as int].line, ts[j as int].column));
        }
        let start = to_zero_loc(t.line, t.column);
        let end = if j + 1 < keep.len() {
            let n = &raw[keep[j + 1]];
            proof {
                assert(keep@.map_values(|i: usize| raw@[i as int]@)[j + 1] == ts[j + 1]);
                assert(raw_loc_ok(ts[j + 1].line, ts[j + 1].column));
            }
            to_zero_loc(n.line, n.column)
        } else {
            eof
        };
        let range = ZeroIndexedRange { start, end };
        proof {
            assert(range == token_range(ts, j as int, sql@));
            assert(ts[j as int].kind == t.kind@);
        }
        let ghost acc = token_views(out@);
        let mut merged = false;
        if out.len() > 0 {
            let last_i = out.len() - 1;
            proof {
                assert(acc.last() == out@[last_i as int]@);
            }
            match merge_tokens(&out[last_i], &t.kind, &range) {
                Some(m) => {
                    let new_start = out[last_i].range.start;
                    let new_token = WithZeroIndexedRange {
                        value: m,
                        range: ZeroIndexedRange { start: new_start, end: range.end },
                    };
                    out.set(last_i, new_token);
                    merged = true;
                    proof {
                        assert(token_views(out@) =~= convert_step(acc, t.kind@, range));
                    }
                },
                None => {},
            }
        }
        if !merged {
            match classify_raw(&t.kind) {
                Some(v) => {
                    out.push(WithZeroIndexedRange { value: v, range });
                    proof {
                        assert(token_views(out@) =~= convert_step(acc, t.kind@, range));
                    }
                },
                None => {
                    proof {
                        assert(token_views(out@) =~= convert_step(acc, t.kind@, range));
                    }
                },
            }
        }
        j = j + 1;
    }
    out
}

/// Whether every token that remains after merging whitespace has a
/// one-based location.
fn locations_ok(raw: &Vec<RawToken>) -> (r: bool)
    ensures
        r == raw_locations_ok(ws_merged(raw_views(raw@))),
{
    let keep = merge_whitespace(raw);
    let ghost ts = ws_merged(raw_views(raw@));
    let mut j: usize = 0;
    while j < keep.len()
        invariant
            j <= keep@.len(),
            ts == ws_merged(raw_views(raw@)),
            ts.len() == keep@.len(),
            forall|k: int| 0 <= k < keep@.len() ==> #[trigger] keep@[k] < raw@.len(),
            keep@.map_values(|i: usize| raw@[i as int]@) == ts,
            forall|k: int| 0 <= k < j ==> raw_loc_ok(#[trigger] ts[k].line, ts[k].column),
        decreases keep@.len() - j,
    {
        proof {
            assert(keep@.map_values(|i: usize| raw@[i as int]@)[j as int] == ts[j as int]);
        }
        if !raw_location_ok(&raw[keep[j]]) {
            proof {
                assert(!raw_loc_ok(ts[j as int].line, ts[j as int].column));
            }
            return false;
        }
        j = j + 1;
    }
    true
}

fn bad_location_error() -> (r: ZeroIndexedTokenizerError)
    ensures
        r.location == (ZeroIndexedLocation { line: 0, column: 0 }),
        r.message@ == bad_location_message(),
{
    let mut v: Vec<char> = Vec::new();
    v.push('i');
    v.push('n');
    v.push('v');
    v.push('a');
    v.push('l');
    v.push('i');
    v.push('d');
    v.push(' ');
    v.push('l');
    v.push('o');
    v.push('c');
    v.push('a');
    v.push('t');
    v.push('i');
    v.push('o');
    v.push('n');
    proof {
        assert(v@ =~= bad_location_message());
    }
    ZeroIndexedTokenizerError {
        location: ZeroIndexedLocation { line: 0, column: 0 },
        message: string_from_chars(&v),
    }
}

/// Tokenizes `sql` into SQLite3 tokens, each with the range it covers;
/// the ranges tile the text (see [`tokens_tile`]).
///
/// A tokenizer error is reported at its zero-indexed location. A location
/// from sqlparser that is not one-based is reported as an error at 0:0.
pub fn tokenize_with_range_location(sql: &str) -> (r: Result<
    Vec<WithZeroIndexedRange<SQLite3Token>>,
    ZeroIndexedTokenizerError,
>)
    ensures
        match r {
            Ok(v) => tokenize_spec(sql@) == Ok::<
                Seq<WithZeroIndexedRange<SQLite3TokenView>>,
                (ZeroIndexedLocation, Seq<char>),
            >(token_views(v@)),
            Err(e) => tokenize_spec(sql@) == Err::<
                Seq<WithZeroIndexedRange<SQLite3TokenView>>,
                (ZeroIndexedLocation, Seq<char>),
            >((e.location, e.message@)),
        },
        r matches Ok(v) ==> tokens_tile(sql@, token_views(v@)),
        r matches Ok(v) ==> (sql@.len() > 0 ==> v@.len() > 0),
        r matches Ok(v) ==> tokens_within_lines(sql@, token_views(v@)),
        r matches Ok(v) ==> semicolons_cover_text(token_views(v@)),
        sql@.len() == 0 ==> (r matches Ok(v) && v@.len() == 0),
{
    match sqlparser_tokenize(sql) {
        Ok(raw) => {
            proof {
                law_tokens_tile_the_text(sql@);
                law_tokens_within_lines(sql@);
            }
            if locations_ok(&raw) {
                Ok(tokens_from_raw(&raw, sql))
            } else {
                Err(bad_location_error())
            }
        },
        Err(e) => {
            if 1 <= e.line && 1 <= e.column && e.line - 1 <= usize::MAX as u64 && e.column - 1
                <= usize::MAX as u64 {
                Err(
                    ZeroIndexedTokenizerError {
                        location: to_zero_loc(e.line, e.column),
                        message: e.message,
                    },
                )
            } else {
                Err(bad_location_error())
            }
        },
    }
}

} // verus!
