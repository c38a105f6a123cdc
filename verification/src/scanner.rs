//! A scanner that walks tokens from the left or from the right and hands
//! out single tokens or whole parenthesized groups.
use vstd::prelude::*;

use crate::location::{ZeroIndexedLocation, loc_le};
use crate::range::WithZeroIndexedRange;
use crate::split_statements::tokens_ordered;
use crate::token::{SQLite3Token, SQLite3TokenView};
use crate::tokenize::token_views;

verus! {

/// What the scanner hands out: a token, a parenthesized group, or one of
/// the two ends of the input.
///
/// "1 + (2 + 3)" -> [SingleToken("1"), SingleToken(" "), SingleToken("+"), SingleToken(" "), Group("2 + 3")]
#[derive(Clone, Debug, Eq, PartialEq)]
pub enum SQLite3TokenScannerOutput<'a> {
    /// A top-level token.
    SingleToken(&'a WithZeroIndexedRange<SQLite3Token>),
    /// The tokens between "(" and its matching ")", left to right in both
    /// directions of the walk.
    Group(Vec<&'a WithZeroIndexedRange<SQLite3Token>>),
    /// Handed out once, first from the left (last from the right).
    StartOfInput,
    /// Handed out once, last from the left (first from the right).
    EndOfInput,
}

/// [`SQLite3TokenScannerOutput`] with its tokens by their views.
pub enum ScanOutputView {
    SingleToken(WithZeroIndexedRange<SQLite3TokenView>),
    Group(Seq<WithZeroIndexedRange<SQLite3TokenView>>),
    StartOfInput,
    EndOfInput,
}

pub open spec fn ref_views<'a>(v: Seq<&'a WithZeroIndexedRange<SQLite3Token>>) -> Seq<
    WithZeroIndexedRange<SQLite3TokenView>,
> {
    v.map_values(|t: &'a WithZeroIndexedRange<SQLite3Token>| t@)
}

impl<'a> View for SQLite3TokenScannerOutput<'a> {
    type V = ScanOutputView;

    open spec fn view(&self) -> ScanOutputView {
        match self {
            SQLite3TokenScannerOutput::SingleToken(t) => ScanOutputView::SingleToken(t@),
            SQLite3TokenScannerOutput::Group(v) => ScanOutputView::Group(ref_views(v@)),
            SQLite3TokenScannerOutput::StartOfInput => ScanOutputView::StartOfInput,
            SQLite3TokenScannerOutput::EndOfInput => ScanOutputView::EndOfInput,
        }
    }
}

pub open spec fn output_views<'a>(v: Seq<SQLite3TokenScannerOutput<'a>>) -> Seq<ScanOutputView> {
    v.map_values(|o: SQLite3TokenScannerOutput<'a>| o@)
}

/// The state of a scanner: the tokens, the next index from the left
/// (inclusive), the next index from the right (exclusive), and whether
/// each end of the input has been handed out.
pub struct ScannerState {
    pub tokens: Seq<WithZeroIndexedRange<SQLite3TokenView>>,
    pub front: int,
    pub back: int,
    pub yielded_start: bool,
    pub yielded_end: bool,
}

/// Paren-aware token scanner that can walk tokens left-to-right (`next`)
/// or right-to-left (`next_back`), handing out tokens or parenthesized
/// groups.
pub struct SQLite3ParenAwareTokenScanner<'a> {
    tokens: &'a [WithZeroIndexedRange<SQLite3Token>],
    /// the next index from the left (inclusive)
    front: usize,
    /// the next index from the right (exclusive)
    back: usize,
    yielded_start: bool,
    yielded_end: bool,
}

impl<'a> View for SQLite3ParenAwareTokenScanner<'a> {
    type V = ScannerState;

    closed spec fn view(&self) -> ScannerState {
        ScannerState {
            tokens: token_views(self.tokens@),
            front: self.front as int,
            back: self.back as int,
            yielded_start: self.yielded_start,
            yielded_end: self.yielded_end,
        }
    }
}

// ---------------------------------------------------------------------------
// Specification
// ---------------------------------------------------------------------------

/// Scanning forward from `i` (below `back`) with `depth` parentheses open,
/// the index of the ")" that closes the first one.
pub open spec fn close_index(
    ts: Seq<WithZeroIndexedRange<SQLite3TokenView>>,
    i: int,
    back: int,
    depth: nat,
) -> Option<int>
    decreases back - i,
{
    if i >= back || depth == 0 {
        None
    } else if ts[i].value is LParen {
        close_index(ts, i + 1, back, depth + 1)
    } else if ts[i].value is RParen {
        if depth == 1 {
            Some(i)
        } else {
            close_index(ts, i + 1, back, (depth - 1) as nat)
        }
    } else {
        close_index(ts, i + 1, back, depth)
    }
}

/// Scanning backward from `j - 1` (down to `front`) with `depth`
/// parentheses open, the index of the "(" that opens the first one.
pub open spec fn open_index(
    ts: Seq<WithZeroIndexedRange<SQLite3TokenView>>,
    front: int,
    j: int,
    depth: nat,
) -> Option<int>
    decreases j - front,
{
    if j <= front || depth == 0 {
        None
    } else if ts[j - 1].value is RParen {
        open_index(ts, front, j - 1, depth + 1)
    } else if ts[j - 1].value is LParen {
        if depth == 1 {
            Some(j - 1)
        } else {
            open_index(ts, front, j - 1, (depth - 1) as nat)
        }
    } else {
        open_index(ts, front, j - 1, depth)
    }
}

/// The scanner's state over `tokens` before any step.
pub open spec fn initial_state(tokens: Seq<WithZeroIndexedRange<SQLite3TokenView>>) -> ScannerState {
    ScannerState { tokens, front: 0, back: tokens.len() as int, yielded_start: false, yielded_end: false }
}

/// One step from the left: the next state and what is handed out.
pub open spec fn scan_next(s: ScannerState) -> (ScannerState, Option<ScanOutputView>) {
    if !s.yielded_start && s.front == 0 {
        (ScannerState { yielded_start: true, ..s }, Some(ScanOutputView::StartOfInput))
    } else if s.front >= s.back {
        if !s.yielded_end {
            (ScannerState { yielded_end: true, ..s }, Some(ScanOutputView::EndOfInput))
        } else {
            (s, None)
        }
    } else if !(s.tokens[s.front].value is LParen) {
        (ScannerState { front: s.front + 1, ..s }, Some(ScanOutputView::SingleToken(s.tokens[s.front])))
    } else {
        match close_index(s.tokens, s.front + 1, s.back, 1) {
            Some(k) => (
                ScannerState { front: k + 1, ..s },
                Some(ScanOutputView::Group(s.tokens.subrange(s.front + 1, k))),
            ),
            None => (
                ScannerState { front: s.front + 1, ..s },
                Some(ScanOutputView::SingleToken(s.tokens[s.front])),
            ),
        }
    }
}

/// One step from the right: the next state and what is handed out.
pub open spec fn scan_next_back(s: ScannerState) -> (ScannerState, Option<ScanOutputView>) {
    if !s.yielded_end && s.back == s.tokens.len() {
        (ScannerState { yielded_end: true, ..s }, Some(ScanOutputView::EndOfInput))
    } else if s.front >= s.back {
        if !s.yielded_start {
            (ScannerState { yielded_start: true, ..s }, Some(ScanOutputView::StartOfInput))
        } else {
            (s, None)
        }
    } else if !(s.tokens[s.back - 1].value is RParen) {
        (ScannerState { back: s.back - 1, ..s }, Some(ScanOutputView::SingleToken(s.tokens[s.back - 1])))
    } else {
        match open_index(s.tokens, s.front, s.back - 1, 1) {
            Some(k) => (
                ScannerState { back: k, ..s },
                Some(ScanOutputView::Group(s.tokens.subrange(k + 1, s.back - 1))),
            ),
            None => (
                ScannerState { back: s.back - 1, ..s },
                Some(ScanOutputView::SingleToken(s.tokens[s.back - 1])),
            ),
        }
    }
}

/// The state is consistent: `front <= back <= tokens.len()`.
pub open spec fn state_ok(s: ScannerState) -> bool {
    0 <= s.front <= s.back <= s.tokens.len()
}

/// A measure that every step from the left that hands something out
/// makes smaller.
pub open spec fn scan_measure(s: ScannerState) -> nat {
    (3 * (s.back - s.front) + (if s.yielded_start {
        0int
    } else {
        1int
    }) + (if s.yielded_end {
        0int
    } else {
        1int
    })) as nat
}

pub proof fn lemma_close_index(ts: Seq<WithZeroIndexedRange<SQLite3TokenView>>, i: int, back: int, depth: nat)
    ensures
        close_index(ts, i, back, depth) matches Some(k) ==> i <= k < back && ts[k].value is RParen,
    decreases back - i,
{
    if i < back && depth > 0 {
        if ts[i].value is LParen {
            lemma_close_index(ts, i + 1, back, depth + 1);
        } else if ts[i].value is RParen {
            if depth != 1 {
                lemma_close_index(ts, i + 1, back, (depth - 1) as nat);
            }
        } else {
            lemma_close_index(ts, i + 1, back, depth);
        }
    }
}

pub proof fn lemma_open_index(ts: Seq<WithZeroIndexedRange<SQLite3TokenView>>, front: int, j: int, depth: nat)
    ensures
        open_index(ts, front, j, depth) matches Some(k) ==> front <= k < j && ts[k].value is LParen,
    decreases j - front,
{
    if j > front && depth > 0 {
        if ts[j - 1].value is RParen {
            lemma_open_index(ts, front, j - 1, depth + 1);
        } else if ts[j - 1].value is LParen {
            if depth != 1 {
                lemma_open_index(ts, front, j - 1, (depth - 1) as nat);
            }
        } else {
            lemma_open_index(ts, front, j - 1, depth);
        }
    }
}

/// A step from the left keeps the state consistent, and shrinks the
/// measure whenever it hands something out.
pub proof fn lemma_scan_next(s: ScannerState)
    requires
        state_ok(s),
    ensures
        state_ok(scan_next(s).0),
        scan_next(s).0.tokens == s.tokens,
        scan_next(s).1 is Some ==> scan_measure(scan_next(s).0) < scan_measure(s),
        scan_next(s).1 is None ==> scan_next(s).0 == s,
{
    if s.front < s.back && (s.yielded_start || s.front != 0) && s.tokens[s.front].value is LParen {
        lemma_close_index(s.tokens, s.front + 1, s.back, 1);
    }
}

/// A step from the right keeps the state consistent, and shrinks the
/// measure whenever it hands something out.
pub proof fn lemma_scan_next_back(s: ScannerState)
    requires
        state_ok(s),
    ensures
        state_ok(scan_next_back(s).0),
        scan_next_back(s).0.tokens == s.tokens,
        scan_next_back(s).1 is Some ==> scan_measure(scan_next_back(s).0) < scan_measure(s),
        scan_next_back(s).1 is None ==> scan_next_back(s).0 == s,
{
    if s.front < s.back && (s.yielded_end || s.back != s.tokens.len()) && s.tokens[s.back - 1].value is RParen {
        lemma_open_index(s.tokens, s.front, s.back - 1, 1);
    }
}

/// Once the scanner hands out nothing, it stays so: a step from either end
/// that hands out nothing leaves the state as it was, so the next step
/// hands out nothing again.
pub proof fn law_scanner_stays_exhausted(s: ScannerState)
    requires
        state_ok(s),
    ensures
        scan_next(s).1 is None ==> scan_next(s).0 == s && scan_next(scan_next(s).0).1 is None,
        scan_next_back(s).1 is None ==> scan_next_back(s).0 == s && scan_next_back(scan_next_back(s).0).1 is None,
{
    lemma_scan_next(s);
    lemma_scan_next_back(s);
}

/// Everything handed out from the left, from state `s` on, until nothing is left.
pub open spec fn scan_all(s: ScannerState) -> Seq<ScanOutputView>
    decreases scan_measure(s),
    when state_ok(s)
{
    let (s2, o) = scan_next(s);
    match o {
        None => seq![],
        Some(out) => {
            proof {
                lemma_scan_next(s);
            }
            seq![out] + scan_all(s2)
        },
    }
}

/// Everything handed out from the right, from state `s` on, until nothing is left.
pub open spec fn scan_all_back(s: ScannerState) -> Seq<ScanOutputView>
    decreases scan_measure(s),
    when state_ok(s)
{
    let (s2, o) = scan_next_back(s);
    match o {
        None => seq![],
        Some(out) => {
            proof {
                lemma_scan_next_back(s);
            }
            seq![out] + scan_all_back(s2)
        },
    }
}

/// How many input tokens an item stands for: a token one, a group its
/// tokens and its two parentheses, an end of the input none.
pub open spec fn output_weight(o: ScanOutputView) -> int {
    match o {
        ScanOutputView::SingleToken(_) => 1,
        ScanOutputView::Group(g) => g.len() + 2int,
        ScanOutputView::StartOfInput => 0,
        ScanOutputView::EndOfInput => 0,
    }
}

/// The number of input tokens that the items of `os` stand for.
pub open spec fn total_weight(os: Seq<ScanOutputView>) -> int
    decreases os.len(),
{
    if os.len() == 0 {
        0
    } else {
        output_weight(os[0]) + total_weight(os.drop_first())
    }
}

proof fn lemma_total_weight_cons(o: ScanOutputView, rest: Seq<ScanOutputView>)
    ensures
        total_weight(seq![o] + rest) == output_weight(o) + total_weight(rest),
{
    assert((seq![o] + rest).drop_first() =~= rest);
}

/// From the left, the items still to come stand for exactly the tokens
/// that are left, and the start of the input comes first if at all.
proof fn lemma_scan_all_front(s: ScannerState)
    requires
        state_ok(s),
    ensures
        total_weight(scan_all(s)) == s.back - s.front,
        forall|i: int| 0 < i < scan_all(s).len() ==> !(#[trigger] scan_all(s)[i] is StartOfInput),
        (s.yielded_start || s.front > 0) ==> forall|i: int|
            0 <= i < scan_all(s).len() ==> !(#[trigger] scan_all(s)[i] is StartOfInput),
        !s.yielded_end ==> scan_all(s).len() >= 1 && scan_all(s).last() is EndOfInput,
        forall|i: int|
            0 <= i < scan_all(s).len() - (if s.yielded_end {
                0int
            } else {
                1int
            }) ==> !(#[trigger] scan_all(s)[i] is EndOfInput),
    decreases scan_measure(s),
{
    lemma_scan_next(s);
    let (s2, o) = scan_next(s);
    match o {
        None => {},
        Some(out) => {
            lemma_scan_all_front(s2);
            let rest = scan_all(s2);
            assert(scan_all(s) == seq![out] + rest);
            lemma_total_weight_cons(out, rest);
            if s.front < s.back && (s.yielded_start || s.front != 0) && s.tokens[s.front].value is LParen {
                lemma_close_index(s.tokens, s.front + 1, s.back, 1);
            }
            assert forall|i: int| 0 < i < scan_all(s).len() implies !(#[trigger] scan_all(s)[i] is StartOfInput) by {
                assert(scan_all(s)[i] == rest[i - 1]);
            }
            assert forall|i: int|
                0 <= i < scan_all(s).len() - (if s.yielded_end {
                    0int
                } else {
                    1int
                }) implies !(#[trigger] scan_all(s)[i] is EndOfInput) by {
                if i > 0 {
                    assert(scan_all(s)[i] == rest[i - 1]);
                }
            }
            if !s.yielded_end && !(out is EndOfInput) {
                assert(scan_all(s).last() == rest.last());
            }
        },
    }
}

/// From the right, the items still to come stand for exactly the tokens
/// that are left, and the end of the input comes first if at all.
proof fn lemma_scan_all_back(s: ScannerState)
    requires
        state_ok(s),
    ensures
        total_weight(scan_all_back(s)) == s.back - s.front,
        forall|i: int| 0 < i < scan_all_back(s).len() ==> !(#[trigger] scan_all_back(s)[i] is EndOfInput),
        (s.yielded_end || s.back < s.tokens.len()) ==> forall|i: int|
            0 <= i < scan_all_back(s).len() ==> !(#[trigger] scan_all_back(s)[i] is EndOfInput),
        !s.yielded_start ==> scan_all_back(s).len() >= 1 && scan_all_back(s).last() is StartOfInput,
        forall|i: int|
            0 <= i < scan_all_back(s).len() - (if s.yielded_start {
                0int
            } else {
                1int
            }) ==> !(#[trigger] scan_all_back(s)[i] is StartOfInput),
    decreases scan_measure(s),
{
    lemma_scan_next_back(s);
    let (s2, o) = scan_next_back(s);
    match o {
        None => {},
        Some(out) => {
            lemma_scan_all_back(s2);
            let rest = scan_all_back(s2);
            assert(scan_all_back(s) == seq![out] + rest);
            lemma_total_weight_cons(out, rest);
            if s.front < s.back && (s.yielded_end || s.back != s.tokens.len()) && s.tokens[s.back
                - 1].value is RParen {
                lemma_open_index(s.tokens, s.front, s.back - 1, 1);
            }
            assert forall|i: int| 0 < i < scan_all_back(s).len() implies !(#[trigger] scan_all_back(
                s,
            )[i] is EndOfInput) by {
                assert(scan_all_back(s)[i] == rest[i - 1]);
            }
            assert forall|i: int|
                0 <= i < scan_all_back(s).len() - (if s.yielded_start {
                    0int
                } else {
                    1int
                }) implies !(#[trigger] scan_all_back(s)[i] is StartOfInput) by {
                if i > 0 {
                    assert(scan_all_back(s)[i] == rest[i - 1]);
                }
            }
            if !s.yielded_start && !(out is StartOfInput) {
                assert(scan_all_back(s).last() == rest.last());
            }
        },
    }
}

/// A full walk over `tokens` from the left hands out the start of the
/// input first and the end of the input last, each exactly once, and its
/// tokens and groups (each group with its two parentheses) account for
/// every input token.
pub proof fn law_full_walk_from_left(tokens: Seq<WithZeroIndexedRange<SQLite3TokenView>>)
    ensures
        ({
            let out = scan_all(initial_state(tokens));
            &&& out.len() >= 2
            &&& out[0] is StartOfInput
            &&& out.last() is EndOfInput
            &&& forall|i: int| 0 < i < out.len() ==> !(#[trigger] out[i] is StartOfInput)
            &&& forall|i: int| 0 <= i < out.len() - 1 ==> !(#[trigger] out[i] is EndOfInput)
            &&& total_weight(out) == tokens.len()
        }),
{
    let s = initial_state(tokens);
    lemma_scan_all_front(s);
    let s1 = scan_next(s).0;
    lemma_scan_next(s);
    lemma_scan_all_front(s1);
    assert(scan_all(s) == seq![ScanOutputView::StartOfInput] + scan_all(s1));
}

/// A full walk over `tokens` from the right hands out the end of the
/// input first and the start of the input last, each exactly once, and its
/// tokens and groups (each group with its two parentheses) account for
/// every input token.
pub proof fn law_full_walk_from_right(tokens: Seq<WithZeroIndexedRange<SQLite3TokenView>>)
    ensures
        ({
            let out = scan_all_back(initial_state(tokens));
            &&& out.len() >= 2
            &&& out[0] is EndOfInput
            &&& out.last() is StartOfInput
            &&& forall|i: int| 0 < i < out.len() ==> !(#[trigger] out[i] is EndOfInput)
            &&& forall|i: int| 0 <= i < out.len() - 1 ==> !(#[trigger] out[i] is StartOfInput)
            &&& total_weight(out) == tokens.len()
        }),
{
    let s = initial_state(tokens);
    lemma_scan_all_back(s);
    let s1 = scan_next_back(s).0;
    lemma_scan_next_back(s);
    lemma_scan_all_back(s1);
    assert(scan_all_back(s) == seq![ScanOutputView::EndOfInput] + scan_all_back(s1));
}

/// The kinds of a run of tokens, in order.
pub open spec fn token_kinds(ts: Seq<WithZeroIndexedRange<SQLite3TokenView>>) -> Seq<SQLite3TokenView> {
    ts.map_values(|t: WithZeroIndexedRange<SQLite3TokenView>| t.value)
}

/// The kinds of the tokens that an item stands for: a token's own; a
/// group's, between the `(` and the `)` that enclose it; none for an end of
/// the input.
pub open spec fn item_kinds(o: ScanOutputView) -> Seq<SQLite3TokenView> {
    match o {
        ScanOutputView::SingleToken(t) => seq![t.value],
        ScanOutputView::Group(g) => seq![SQLite3TokenView::LParen] + token_kinds(g) + seq![SQLite3TokenView::RParen],
        ScanOutputView::StartOfInput => seq![],
        ScanOutputView::EndOfInput => seq![],
    }
}

/// The kinds that the items of `os` stand for, one item after another.
pub open spec fn items_kinds(os: Seq<ScanOutputView>) -> Seq<SQLite3TokenView>
    decreases os.len(),
{
    if os.len() == 0 {
        seq![]
    } else {
        item_kinds(os[0]) + items_kinds(os.drop_first())
    }
}

proof fn lemma_scan_all_kinds(s: ScannerState)
    requires
        state_ok(s),
    ensures
        items_kinds(scan_all(s)) == token_kinds(s.tokens.subrange(s.front, s.back)),
    decreases scan_measure(s),
{
    lemma_scan_next(s);
    let (s2, o) = scan_next(s);
    let here = token_kinds(s.tokens.subrange(s.front, s.back));
    match o {
        None => {
            assert(here =~= Seq::<SQLite3TokenView>::empty());
        },
        Some(out) => {
            lemma_scan_all_kinds(s2);
            let rest = scan_all(s2);
            assert(scan_all(s) == seq![out] + rest);
            assert((seq![out] + rest).drop_first() =~= rest);
            assert(items_kinds(scan_all(s)) == item_kinds(out) + items_kinds(rest));
            match out {
                ScanOutputView::SingleToken(t) => {
                    assert(here =~= seq![t.value] + token_kinds(s.tokens.subrange(s2.front, s2.back)));
                },
                ScanOutputView::Group(g) => {
                    lemma_close_index(s.tokens, s.front + 1, s.back, 1);
                    let k = close_index(s.tokens, s.front + 1, s.back, 1)->0;
                    assert(s2.front == k + 1);
                    assert(here =~= seq![SQLite3TokenView::LParen] + token_kinds(g) + seq![SQLite3TokenView::RParen]
                        + token_kinds(s.tokens.subrange(k + 1, s.back)));
                },
                _ => {
                    assert(s2.front == s.front && s2.back == s.back);
                    assert(item_kinds(out) =~= Seq::<SQLite3TokenView>::empty());
                },
            }
        },
    }
}

/// A full walk from the left gives the input back in order: writing each
/// token it hands out, and each group between a `(` and a `)`, gives the
/// kinds of all the input tokens one after another.
pub proof fn law_walk_from_left_keeps_order(tokens: Seq<WithZeroIndexedRange<SQLite3TokenView>>)
    ensures
        items_kinds(scan_all(initial_state(tokens))) == token_kinds(tokens),
{
    lemma_scan_all_kinds(initial_state(tokens));
    assert(tokens.subrange(0, tokens.len() as int) =~= tokens);
}

/// An item stands for at least one token that carries a location: a
/// token, or a group that is not empty.
pub open spec fn item_located(o: ScanOutputView) -> bool {
    ||| o is SingleToken
    ||| (o matches ScanOutputView::Group(g) && g.len() > 0)
}

/// Where a located item starts.
pub open spec fn item_first(o: ScanOutputView) -> ZeroIndexedLocation {
    match o {
        ScanOutputView::SingleToken(t) => t.range.start,
        ScanOutputView::Group(g) => g[0].range.start,
        _ => ZeroIndexedLocation { line: 0, column: 0 },
    }
}

/// Where a located item ends.
pub open spec fn item_last(o: ScanOutputView) -> ZeroIndexedLocation {
    match o {
        ScanOutputView::SingleToken(t) => t.range.end,
        ScanOutputView::Group(g) => g.last().range.end,
        _ => ZeroIndexedLocation { line: 0, column: 0 },
    }
}

/// Each located item ends no later than any located item after it starts.
pub open spec fn items_in_order(os: Seq<ScanOutputView>) -> bool {
    forall|p: int, q: int|
        0 <= p < q < os.len() && item_located(#[trigger] os[p]) && item_located(#[trigger] os[q]) ==> loc_le(
            item_last(os[p]),
            item_first(os[q]),
        )
}

proof fn lemma_ordered_pair(ts: Seq<WithZeroIndexedRange<SQLite3TokenView>>, p: int, q: int)
    requires
        tokens_ordered(ts),
        0 <= p <= q < ts.len(),
    ensures
        loc_le(ts[p].range.start, ts[q].range.start),
        loc_le(ts[p].range.end, ts[q].range.end),
        loc_le(ts[p].range.start, ts[q].range.end),
        p < q ==> loc_le(ts[p].range.end, ts[q].range.start),
{
    assert(loc_le(ts[p].range.start, ts[p].range.end));
    assert(loc_le(ts[q].range.start, ts[q].range.end));
    if p < q {
        assert(loc_le(ts[p].range.end, ts[q].range.start));
    }
}

proof fn lemma_scan_all_order(s: ScannerState)
    requires
        state_ok(s),
        tokens_ordered(s.tokens),
    ensures
        items_in_order(scan_all(s)),
        forall|p: int|
            0 <= p < scan_all(s).len() && item_located(#[trigger] scan_all(s)[p]) ==> {
                &&& s.front < s.back
                &&& loc_le(s.tokens[s.front].range.start, item_first(scan_all(s)[p]))
                &&& loc_le(item_first(scan_all(s)[p]), item_last(scan_all(s)[p]))
                &&& loc_le(item_last(scan_all(s)[p]), s.tokens[s.back - 1].range.end)
            },
    decreases scan_measure(s),
{
    lemma_scan_next(s);
    let (s2, o) = scan_next(s);
    match o {
        None => {},
        Some(out) => {
            lemma_scan_all_order(s2);
            let rest = scan_all(s2);
            let all = scan_all(s);
            assert(all == seq![out] + rest);
            let ts = s.tokens;
            if item_located(out) || exists|q: int| 0 <= q < rest.len() && item_located(#[trigger] rest[q]) {
                // Where `out` ends, and where what comes after it can start.
                assert(s.front < s.back) by {
                    if !item_located(out) {
                        let q = choose|q: int| 0 <= q < rest.len() && item_located(#[trigger] rest[q]);
                        assert(s2.front < s2.back);
                    }
                }
            }
            match out {
                ScanOutputView::SingleToken(t) => {
                    assert(t == ts[s.front]);
                    lemma_ordered_pair(ts, s.front, s.back - 1);
                    if s2.front < s2.back {
                        lemma_ordered_pair(ts, s.front, s2.front);
                    }
                },
                ScanOutputView::Group(g) => {
                    lemma_close_index(ts, s.front + 1, s.back, 1);
                    let k = close_index(ts, s.front + 1, s.back, 1)->0;
                    assert(s2.front == k + 1);
                    lemma_ordered_pair(ts, s.front, k);
                    lemma_ordered_pair(ts, k, s.back - 1);
                    if g.len() > 0 {
                        assert(g[0] == ts[s.front + 1]);
                        assert(g.last() == ts[k - 1]);
                        lemma_ordered_pair(ts, s.front, s.front + 1);
                        lemma_ordered_pair(ts, s.front + 1, k - 1);
                        lemma_ordered_pair(ts, k - 1, k);
                    }
                    if s2.front < s2.back {
                        lemma_ordered_pair(ts, k, s2.front);
                        lemma_ordered_pair(ts, s.front, s2.front);
                    }
                },
                _ => {
                    assert(s2.front == s.front && s2.back == s.back);
                },
            }
            assert forall|p: int|
                0 <= p < all.len() && item_located(#[trigger] all[p]) implies {
                    &&& s.front < s.back
                    &&& loc_le(ts[s.front].range.start, item_first(all[p]))
                    &&& loc_le(item_first(all[p]), item_last(all[p]))
                    &&& loc_le(item_last(all[p]), ts[s.back - 1].range.end)
                } by {
                if p > 0 {
                    assert(all[p] == rest[p - 1]);
                }
            }
            assert forall|p: int, q: int|
                0 <= p < q < all.len() && item_located(#[trigger] all[p]) && item_located(#[trigger] all[q]) implies loc_le(
                    item_last(all[p]),
                    item_first(all[q]),
                ) by {
                assert(all[q] == rest[q - 1]);
                if p > 0 {
                    assert(all[p] == rest[p - 1]);
                }
            }
        },
    }
}

/// A full walk from the left hands out its items in the order of the
/// text: over tokens that come one after another, each item that stands
/// for a token, or for a group that is not empty, ends no later than any
/// such item after it starts.
pub proof fn law_walk_from_left_in_text_order(tokens: Seq<WithZeroIndexedRange<SQLite3TokenView>>)
    requires
        tokens_ordered(tokens),
    ensures
        items_in_order(scan_all(initial_state(tokens))),
        forall|p: int|
            0 <= p < scan_all(initial_state(tokens)).len() && item_located(
                #[trigger] scan_all(initial_state(tokens))[p],
            ) ==> loc_le(item_first(scan_all(initial_state(tokens))[p]), item_last(scan_all(initial_state(tokens))[p])),
{
    lemma_scan_all_order(initial_state(tokens));
}

// ---------------------------------------------------------------------------
// Implementation
// ---------------------------------------------------------------------------

impl<'a> SQLite3ParenAwareTokenScanner<'a> {
    /// The scanner's state is consistent.
    pub closed spec fn wf(&self) -> bool {
        self.front <= self.back <= self.tokens@.len()
    }

    /// A scanner over `tokens` that has handed out nothing yet.
    pub fn new(tokens: &'a [WithZeroIndexedRange<SQLite3Token>]) -> (r: Self)
        ensures
            r.wf(),
            r@ == initial_state(token_views(tokens@)),
    {
        SQLite3ParenAwareTokenScanner {
            tokens,
            front: 0,
            back: tokens.len(),
            yielded_start: false,
            yielded_end: false,
        }
    }

    /// Takes the next token from the left; `None` when exhausted.
    fn pop_front(&mut self) -> (r: Option<&'a WithZeroIndexedRange<SQLite3Token>>)
        requires
            old(self).wf(),
        ensures
            final(self).wf(),
            final(self).tokens == old(self).tokens,
            final(self).back == old(self).back,
            final(self).yielded_start == old(self).yielded_start,
            final(self).yielded_end == old(self).yielded_end,
            old(self).front < old(self).back ==> r.is_some() && *r.unwrap() == old(self).tokens@[old(
                self,
            ).front as int] && final(self).front == old(self).front + 1,
            old(self).front >= old(self).back ==> r.is_none() && final(self).front == old(self).front,
    {
        if self.front >= self.back {
            return None;
        }
        let toks: &'a [WithZeroIndexedRange<SQLite3Token>] = self.tokens;
        let t = &toks[self.front];
        self.front = self.front + 1;
        Some(t)
    }

    /// Takes the next token from the right; `None` when exhausted.
    fn pop_back(&mut self) -> (r: Option<&'a WithZeroIndexedRange<SQLite3Token>>)
        requires
            old(self).wf(),
        ensures
            final(self).wf(),
            final(self).tokens == old(self).tokens,
            final(self).front == old(self).front,
            final(self).yielded_start == old(self).yielded_start,
            final(self).yielded_end == old(self).yielded_end,
            old(self).front < old(self).back ==> r.is_some() && *r.unwrap() == old(self).tokens@[old(
                self,
            ).back - 1] && final(self).back == old(self).back - 1,
            old(self).front >= old(self).back ==> r.is_none() && final(self).back == old(self).back,
    {
        if self.front >= self.back {
            return None;
        }
        self.back = self.back - 1;
        let toks: &'a [WithZeroIndexedRange<SQLite3Token>] = self.tokens;
        Some(&toks[self.back])
    }

    /// Consumes tokens from the left until the ")" that closes an already
    /// consumed "(", and returns the tokens before it (`None` if there is
    /// no such ")").
    fn scan_until_matching_paren_front(&mut self) -> (r: Option<Vec<&'a WithZeroIndexedRange<SQLite3Token>>>)
        requires
            old(self).wf(),
            old(self).front >= 1,
        ensures
            final(self).wf(),
            final(self).tokens == old(self).tokens,
            final(self).back == old(self).back,
            final(self).yielded_start == old(self).yielded_start,
            final(self).yielded_end == old(self).yielded_end,
            match close_index(token_views(old(self).tokens@), old(self).front as int, old(self).back as int, 1) {
                Some(k) => r.is_some() && ref_views(r.unwrap()@) == token_views(old(self).tokens@).subrange(
                    old(self).front as int,
                    k,
                ) && final(self).front == k + 1,
                None => r.is_none(),
            },
    {
        let ghost tv = token_views(self.tokens@);
        let ghost orig = self.front as int;
        let ghost back = self.back as int;
        let ghost toks = self.tokens;
        let ghost ys = self.yielded_start;
        let ghost ye = self.yielded_end;
        let mut depth: usize = 1;
        let mut inner: Vec<&'a WithZeroIndexedRange<SQLite3Token>> = Vec::new();
        loop
            invariant
                self.wf(),
                tv == token_views(self.tokens@),
                self.tokens == toks,
                toks == old(self).tokens,
                back == old(self).back,
                orig == old(self).front,
                ys == old(self).yielded_start,
                ye == old(self).yielded_end,
                self.back == back,
                self.yielded_start == ys,
                self.yielded_end == ye,
                orig >= 1,
                orig <= self.front,
                1 <= depth <= self.front - orig + 1,
                close_index(tv, self.front as int, back, depth as nat) == close_index(tv, orig, back, 1),
                ref_views(inner@) == tv.subrange(orig, self.front as int),
            decreases self.back - self.front,
        {
            let ghost f = self.front as int;
            match self.pop_front() {
                None => {
                    return None;
                },
                Some(t) => {
                    proof {
                        assert(tv[f] == t@);
                    }
                    if matches!(t.value, SQLite3Token::LParen) {
                        depth = depth + 1;
                    } else if matches!(t.value, SQLite3Token::RParen) {
                        depth = depth - 1;
                        if depth == 0 {
                            return Some(inner);
                        }
                    }
                    let ghost old_inner = ref_views(inner@);
                    inner.push(t);
                    proof {
                        assert(ref_views(inner@) =~= old_inner.push(t@));
                        assert(tv.subrange(orig, self.front as int) =~= tv.subrange(orig, f).push(tv[f]));
                    }
                },
            }
        }
    }

    /// Consumes tokens from the right until the "(" that opens an already
    /// consumed ")", and returns the tokens after it, left to right (`None`
    /// if there is no such "(").
    fn scan_until_matching_paren_back(&mut self) -> (r: Option<Vec<&'a WithZeroIndexedRange<SQLite3Token>>>)
        requires
            old(self).wf(),
            old(self).back < old(self).tokens@.len(),
        ensures
            final(self).wf(),
            final(self).tokens == old(self).tokens,
            final(self).front == old(self).front,
            final(self).yielded_start == old(self).yielded_start,
            final(self).yielded_end == old(self).yielded_end,
            match open_index(token_views(old(self).tokens@), old(self).front as int, old(self).back as int, 1) {
                Some(k) => r.is_some() && ref_views(r.unwrap()@) == token_views(old(self).tokens@).subrange(
                    k + 1,
                    old(self).back as int,
                ) && final(self).back == k,
                None => r.is_none(),
            },
    {
        let ghost tv = token_views(self.tokens@);
        let ghost orig = self.back as int;
        let ghost front = self.front as int;
        let ghost toks = self.tokens;
        let ghost ys = self.yielded_start;
        let ghost ye = self.yielded_end;
        let n = self.tokens.len();
        let mut depth: usize = 1;
        // The tokens consumed so far, right to left.
        let mut inner: Vec<&'a WithZeroIndexedRange<SQLite3Token>> = Vec::new();
        loop
            invariant
                self.wf(),
                tv == token_views(self.tokens@),
                self.tokens == toks,
                toks == old(self).tokens,
                front == old(self).front,
                orig == old(self).back,
                ys == old(self).yielded_start,
                ye == old(self).yielded_end,
                self.front == front,
                self.yielded_start == ys,
                self.yielded_end == ye,
                n == tv.len(),
                orig < tv.len(),
                self.back <= orig,
                1 <= depth <= orig - self.back + 1,
                open_index(tv, front, self.back as int, depth as nat) == open_index(tv, front, orig, 1),
                ref_views(inner@) == tv.subrange(self.back as int, orig).reverse(),
            decreases self.back - self.front,
        {
            let ghost b = self.back as int;
            match self.pop_back() {
                None => {
                    return None;
                },
                Some(t) => {
                    proof {
                        assert(tv[b - 1] == t@);
                    }
                    if matches!(t.value, SQLite3Token::RParen) {
                        depth = depth + 1;
                    } else if matches!(t.value, SQLite3Token::LParen) {
                        depth = depth - 1;
                        if depth == 0 {
                            let out = reversed(&inner);
                            proof {
                                assert(ref_views(out@) =~= tv.subrange(b, orig).reverse().reverse());
                                assert(tv.subrange(b, orig).reverse().reverse() =~= tv.subrange(b, orig));
                            }
                            return Some(out);
                        }
                    }
                    let ghost old_inner = ref_views(inner@);
                    inner.push(t);
                    proof {
                        assert(ref_views(inner@) =~= old_inner.push(t@));
                        assert(tv.subrange(b - 1, orig).reverse() =~= tv.subrange(b, orig).reverse().push(
                            tv[b - 1],
                        ));
                    }
                },
            }
        }
    }

    /// Takes the next item from the left, grouping parentheses.
    pub fn next(&mut self) -> (r: Option<SQLite3TokenScannerOutput<'a>>)
        requires
            old(self).wf(),
        ensures
            final(self).wf(),
            final(self)@ == scan_next(old(self)@).0,
            r matches Some(o) ==> scan_next(old(self)@).1 == Some(o@),
            r is None ==> scan_next(old(self)@).1 is None,
    {
        if !self.yielded_start && self.front == 0 {
            self.yielded_start = true;
            return Some(SQLite3TokenScannerOutput::StartOfInput);
        }
        let single_token = match self.pop_front() {
            Some(t) => t,
            None => {
                if !self.yielded_end {
                    self.yielded_end = true;
                    return Some(SQLite3TokenScannerOutput::EndOfInput);
                }
                return None;
            },
        };
        if !matches!(single_token.value, SQLite3Token::LParen) {
            return Some(SQLite3TokenScannerOutput::SingleToken(single_token));
        }
        let index_after_paren = self.front;
        match self.scan_until_matching_paren_front() {
            Some(inner) => Some(SQLite3TokenScannerOutput::Group(inner)),
            None => {
                self.front = index_after_paren;
                Some(SQLite3TokenScannerOutput::SingleToken(single_token))
            },
        }
    }

    /// Takes the next item from the right, grouping parentheses.
    pub fn next_back(&mut self) -> (r: Option<SQLite3TokenScannerOutput<'a>>)
        requires
            old(self).wf(),
        ensures
            final(self).wf(),
            final(self)@ == scan_next_back(old(self)@).0,
            r matches Some(o) ==> scan_next_back(old(self)@).1 == Some(o@),
            r is None ==> scan_next_back(old(self)@).1 is None,
    {
        if !self.yielded_end && self.back == self.tokens.len() {
            self.yielded_end = true;
            return Some(SQLite3TokenScannerOutput::EndOfInput);
        }
        let single_token = match self.pop_back() {
            Some(t) => t,
            None => {
                if !self.yielded_start {
                    self.yielded_start = true;
                    return Some(SQLite3TokenScannerOutput::StartOfInput);
                }
                return None;
            },
        };
        if !matches!(single_token.value, SQLite3Token::RParen) {
            return Some(SQLite3TokenScannerOutput::SingleToken(single_token));
        }
        let index_before_paren = self.back;
        match self.scan_until_matching_paren_back() {
            Some(inner) => Some(SQLite3TokenScannerOutput::Group(inner)),
            None => {
                self.back = index_before_paren;
                Some(SQLite3TokenScannerOutput::SingleToken(single_token))
            },
        }
    }

    /// Everything that is left, taken from the left.
    pub fn collect(self) -> (r: Vec<SQLite3TokenScannerOutput<'a>>)
        requires
            self.wf(),
        ensures
            output_views(r@) == scan_all(self@),
    {
        let mut it = self;
        let mut out: Vec<SQLite3TokenScannerOutput<'a>> = Vec::new();
        proof {
            assert(output_views(out@) =~= seq![]);
        }
        loop
            invariant
                it.wf(),
                state_ok(it@),
                state_ok(self@),
                output_views(out@) + scan_all(it@) == scan_all(self@),
            decreases scan_measure(it@),
        {
            let ghost s = it@;
            proof {
                lemma_scan_next(s);
            }
            match it.next() {
                None => {
                    proof {
                        assert(scan_all(s) =~= seq![]);
                        assert(output_views(out@) =~= output_views(out@) + scan_all(s));
                    }
                    return out;
                },
                Some(o) => {
                    let ghost old_out = output_views(out@);
                    out.push(o);
                    proof {
                        assert(output_views(out@) =~= old_out.push(o@));
                        assert(scan_all(s) =~= seq![o@] + scan_all(it@));
                        assert(old_out + scan_all(s) =~= output_views(out@) + scan_all(it@));
                    }
                },
            }
        }
    }
}

/// The tokens of `v` in reverse order.
fn reversed<'a>(v: &Vec<&'a WithZeroIndexedRange<SQLite3Token>>) -> (r: Vec<&'a WithZeroIndexedRange<SQLite3Token>>)
    ensures
        ref_views(r@) == ref_views(v@).reverse(),
{
    let mut r: Vec<&'a WithZeroIndexedRange<SQLite3Token>> = Vec::new();
    let mut i = v.len();
    while i > 0
        invariant
            i <= v@.len(),
            ref_views(r@) == ref_views(v@).subrange(i as int, v@.len() as int).reverse(),
        decreases i,
    {
        i = i - 1;
        let ghost old_r = ref_views(r@);
        r.push(v[i]);
        proof {
            assert(ref_views(r@) =~= old_r.push(v@[i as int]@));
            assert(ref_views(v@).subrange(i as int, v@.len() as int).reverse() =~= ref_views(v@).subrange(
                i + 1,
                v@.len() as int,
            ).reverse().push(ref_views(v@)[i as int]));
        }
    }
    proof {
        assert(ref_views(v@).subrange(0, v@.len() as int) =~= ref_views(v@));
    }
    r
}

} // verus!
