//! Semantic highlighting: the kind of every token of a script.
use vstd::prelude::*;

use crate::range::{WithZeroIndexedRange, ZeroIndexedRange};
use crate::token::{SQLite3Token, SQLite3TokenView};
use crate::tokenize::{token_views, tokenize_spec, tokenize_with_range_location};

verus! {

/// How a token is highlighted.
#[derive(Clone, Copy, Debug, Eq, PartialEq, Structural)]
pub enum SemanticTokenKind {
    Keyword,
    Number,
    String,
    Operator,
    Comment,
    Function,
    Variable,
    Other,
}

/// A highlighted range.
#[derive(Clone, Copy, Debug, Eq, PartialEq, Structural)]
pub struct SemanticHighlight {
    pub kind: SemanticTokenKind,
    pub range: ZeroIndexedRange,
}

/// The parameters of the semantic-highlight command.
#[derive(Clone, Debug, Eq, PartialEq)]
pub struct SemanticHighlightCommandParams {
    pub query: String,
}

/// How a token with value `t` is highlighted.
pub open spec fn token_kind(t: SQLite3TokenView) -> SemanticTokenKind {
    match t {
        SQLite3TokenView::NumericLiteral(_) | SQLite3TokenView::InvalidNumericLiteral => SemanticTokenKind::Number,
        SQLite3TokenView::StringLiteral(_) | SQLite3TokenView::BlobLiteral(_)
        | SQLite3TokenView::InvalidStringLiteral => SemanticTokenKind::String,
        SQLite3TokenView::Identifier(_, k) => if k is Some {
            SemanticTokenKind::Keyword
        } else {
            SemanticTokenKind::Variable
        },
        SQLite3TokenView::Keyword(_) => SemanticTokenKind::Keyword,
        SQLite3TokenView::Whitespace(comment) => if comment {
            SemanticTokenKind::Comment
        } else {
            SemanticTokenKind::Other
        },
        SQLite3TokenView::Operator(_) | SQLite3TokenView::InvalidOperator => SemanticTokenKind::Operator,
        _ => SemanticTokenKind::Other,
    }
}

/// The highlights of the first `n` tokens: one per token that covers at
/// least one character.
pub open spec fn highlights_of(ts: Seq<WithZeroIndexedRange<SQLite3TokenView>>, n: nat) -> Seq<SemanticHighlight>
    decreases n,
{
    if n == 0 || n > ts.len() {
        seq![]
    } else {
        let acc = highlights_of(ts, (n - 1) as nat);
        let t = ts[n - 1];
        if t.range.start == t.range.end {
            acc
        } else {
            acc.push(SemanticHighlight { kind: token_kind(t.value), range: t.range })
        }
    }
}

/// The highlights of `sql`: none if it does not tokenize.
pub open spec fn semantic_highlight_spec(sql: Seq<char>) -> Seq<SemanticHighlight> {
    match tokenize_spec(sql) {
        Err(_) => seq![],
        Ok(ts) => highlights_of(ts, ts.len()),
    }
}

/// Every highlight covers at least one character and has the kind of the
/// token it covers.
proof fn lemma_highlights_nonempty(ts: Seq<WithZeroIndexedRange<SQLite3TokenView>>, n: nat)
    requires
        n <= ts.len(),
    ensures
        forall|i: int|
            0 <= i < highlights_of(ts, n).len() ==> #[trigger] highlights_of(ts, n)[i].range.start
                != highlights_of(ts, n)[i].range.end,
        highlights_of(ts, n).len() <= n,
    decreases n,
{
    if n > 0 {
        lemma_highlights_nonempty(ts, (n - 1) as nat);
    }
}

/// No highlight is empty: each covers at least one character, and a script
/// gets no more highlights than it has tokens.
pub proof fn law_highlights_nonempty(sql: Seq<char>)
    ensures
        forall|i: int|
            0 <= i < semantic_highlight_spec(sql).len() ==> #[trigger] semantic_highlight_spec(sql)[i].range.start
                != semantic_highlight_spec(sql)[i].range.end,
        tokenize_spec(sql) matches Ok(ts) ==> semantic_highlight_spec(sql).len() <= ts.len(),
{
    if let Ok(ts) = tokenize_spec(sql) {
        lemma_highlights_nonempty(ts, ts.len());
    }
}

/// The highlight of a token: its kind and range, if it covers at least one
/// character.
pub open spec fn highlight_of_token(t: WithZeroIndexedRange<SQLite3TokenView>) -> Option<SemanticHighlight> {
    if t.range.start == t.range.end {
        None
    } else {
        Some(SemanticHighlight { kind: token_kind(t.value), range: t.range })
    }
}

proof fn lemma_highlights_are_filter_map(ts: Seq<WithZeroIndexedRange<SQLite3TokenView>>, n: nat)
    requires
        n <= ts.len(),
    ensures
        highlights_of(ts, n) == ts.subrange(0, n as int).filter_map(|t| highlight_of_token(t)),
    decreases n,
{
    let f = |t| highlight_of_token(t);
    if n == 0 {
        assert(ts.subrange(0, 0) =~= Seq::<WithZeroIndexedRange<SQLite3TokenView>>::empty());
    } else {
        lemma_highlights_are_filter_map(ts, (n - 1) as nat);
        let sub = ts.subrange(0, n as int);
        assert(sub.drop_last() =~= ts.subrange(0, n - 1));
        assert(sub.last() == ts[n - 1]);
        let acc = highlights_of(ts, (n - 1) as nat);
        let t = ts[n - 1];
        if t.range.start != t.range.end {
            assert(acc.push(SemanticHighlight { kind: token_kind(t.value), range: t.range }) =~= acc + seq![
                SemanticHighlight { kind: token_kind(t.value), range: t.range },
            ]);
        }
    }
}

/// The tokens that cover at least one character.
pub open spec fn nonempty_tokens(ts: Seq<WithZeroIndexedRange<SQLite3TokenView>>) -> Seq<
    WithZeroIndexedRange<SQLite3TokenView>,
> {
    ts.filter(|t: WithZeroIndexedRange<SQLite3TokenView>| t.range.start != t.range.end)
}

proof fn lemma_highlights_are_nonempty_tokens(ts: Seq<WithZeroIndexedRange<SQLite3TokenView>>, n: nat)
    requires
        n <= ts.len(),
    ensures
        highlights_of(ts, n).len() == nonempty_tokens(ts.subrange(0, n as int)).len(),
        forall|i: int|
            0 <= i < highlights_of(ts, n).len() ==> {
                let t = #[trigger] nonempty_tokens(ts.subrange(0, n as int))[i];
                &&& highlights_of(ts, n)[i].range == t.range
                &&& highlights_of(ts, n)[i].kind == token_kind(t.value)
            },
    decreases n,
{
    if n == 0 {
        assert(ts.subrange(0, 0) =~= Seq::<WithZeroIndexedRange<SQLite3TokenView>>::empty());
    } else {
        lemma_highlights_are_nonempty_tokens(ts, (n - 1) as nat);
        let sub = ts.subrange(0, n as int);
        assert(sub.drop_last() =~= ts.subrange(0, n - 1));
        assert(sub.last() == ts[n - 1]);
        let prev = nonempty_tokens(ts.subrange(0, n - 1));
        let cur = nonempty_tokens(sub);
        let t = ts[n - 1];
        let pred = |u: WithZeroIndexedRange<SQLite3TokenView>| u.range.start != u.range.end;
        assert(cur == sub.filter(pred));
        assert(sub =~= ts.subrange(0, n - 1).push(t));
        ts.subrange(0, n - 1).lemma_filter_push(t, pred);
        if t.range.start != t.range.end {
            assert(cur == prev.push(t));
        } else {
            assert(cur == prev);
        }
        assert forall|i: int| 0 <= i < highlights_of(ts, n).len() implies {
            let u = #[trigger] nonempty_tokens(ts.subrange(0, n as int))[i];
            &&& highlights_of(ts, n)[i].range == u.range
            &&& highlights_of(ts, n)[i].kind == token_kind(u.value)
        } by {
            if i < prev.len() {
                assert(cur[i] == prev[i]);
                assert(highlights_of(ts, n)[i] == highlights_of(ts, (n - 1) as nat)[i]);
            }
        }
    }
}

/// The highlights are the tokens that cover at least one character, in
/// order: one highlight for each, over the token's range, with the token's
/// kind (see [`token_kind`]); none when the script does not tokenize.
pub proof fn law_highlights_follow_nonempty_tokens(sql: Seq<char>)
    ensures
        tokenize_spec(sql) is Err ==> semantic_highlight_spec(sql).len() == 0,
        tokenize_spec(sql) matches Ok(ts) ==> {
            &&& semantic_highlight_spec(sql).len() == nonempty_tokens(ts).len()
            &&& forall|i: int|
                0 <= i < semantic_highlight_spec(sql).len() ==> {
                    &&& (#[trigger] semantic_highlight_spec(sql)[i]).range == nonempty_tokens(ts)[i].range
                    &&& semantic_highlight_spec(sql)[i].kind == token_kind(nonempty_tokens(ts)[i].value)
                }
        },
{
    if let Ok(ts) = tokenize_spec(sql) {
        lemma_highlights_are_nonempty_tokens(ts, ts.len());
        assert(ts.subrange(0, ts.len() as int) =~= ts);
        assert forall|i: int| 0 <= i < semantic_highlight_spec(sql).len() implies {
            &&& (#[trigger] semantic_highlight_spec(sql)[i]).range == nonempty_tokens(ts)[i].range
            &&& semantic_highlight_spec(sql)[i].kind == token_kind(nonempty_tokens(ts)[i].value)
        } by {
            let _u = nonempty_tokens(ts.subrange(0, ts.len() as int))[i];
        }
    }
}

/// The highlights pair with the tokens: a script that does not tokenize
/// gets none; otherwise, in order, each token that covers at least one
/// character gets one highlight over its range, with the kind of the token
/// (a keyword or a keyword-like identifier `Keyword`, another identifier
/// `Variable`, a comment `Comment`, ...).
pub proof fn law_highlights_pair_with_tokens(sql: Seq<char>)
    ensures
        tokenize_spec(sql) is Err ==> semantic_highlight_spec(sql) == Seq::<SemanticHighlight>::empty(),
        tokenize_spec(sql) matches Ok(ts) ==> semantic_highlight_spec(sql) == ts.filter_map(
            |t| highlight_of_token(t),
        ),
{
    if let Ok(ts) = tokenize_spec(sql) {
        lemma_highlights_are_filter_map(ts, ts.len());
        assert(ts.subrange(0, ts.len() as int) =~= ts);
    }
}

fn kind_of_token(t: &SQLite3Token) -> (r: SemanticTokenKind)
    ensures
        r == token_kind(t@),
{
    match t {
        SQLite3Token::NumericLiteral(_) | SQLite3Token::InvalidNumericLiteral => SemanticTokenKind::Number,
        SQLite3Token::StringLiteral(_) | SQLite3Token::BlobLiteral(_) | SQLite3Token::InvalidStringLiteral => {
            SemanticTokenKind::String
        },
        SQLite3Token::Identifier(_, k) => if k.is_some() {
            SemanticTokenKind::Keyword
        } else {
            SemanticTokenKind::Variable
        },
        SQLite3Token::Keyword(_) => SemanticTokenKind::Keyword,
        SQLite3Token::Whitespace(comment) => if *comment {
            SemanticTokenKind::Comment
        } else {
            SemanticTokenKind::Other
        },
        SQLite3Token::Operator(_) | SQLite3Token::InvalidOperator => SemanticTokenKind::Operator,
        _ => SemanticTokenKind::Other,
    }
}

/// Tokenizes `sql` and gives each token that covers at least one character
/// the kind it is highlighted with; nothing if `sql` does not tokenize.
pub fn semantic_highlight(sql: &str) -> (r: Vec<SemanticHighlight>)
    ensures
        r@ == semantic_highlight_spec(sql@),
{
    let mut out: Vec<SemanticHighlight> = Vec::new();
    let tokens = match tokenize_with_range_location(sql) {
        Ok(t) => t,
        Err(_) => {
            return out;
        },
    };
    let ghost ts = token_views(tokens@);
    let mut i: usize = 0;
    while i < tokens.len()
        invariant
            i <= tokens@.len(),
            ts == token_views(tokens@),
            out@ == highlights_of(ts, i as nat),
        decreases tokens@.len() - i,
    {
        let t = &tokens[i];
        proof {
            assert(ts[i as int] == t@);
        }
        if t.range.start != t.range.end {
            out.push(SemanticHighlight { kind: kind_of_token(&t.value), range: t.range });
        }
        i = i + 1;
    }
    out
}

} // verus!
