//! The parameter placeholders of a statement, in the order in which
//! SQLite numbers them.
use vstd::prelude::*;

use crate::location::{ZeroIndexedLocation, loc_sub};
use crate::range::{WithZeroIndexedRange, ZeroIndexedRange};
use crate::split_statements::{SingleStatement, SingleStatementView};
use crate::text::str_chars;
use crate::token::{SQLite3PlaceholderKind, SQLite3Token, SQLite3TokenView};
use crate::tokenize::token_views;

verus! {

/// A parameter of a statement: its name and where it occurs.
#[derive(Clone, Debug, Eq, PartialEq)]
pub struct Placeholder {
    /// `?` => None; `:VVV`, `@VVV`, `$VVV`, `?NNN` => its text.
    pub name: Option<String>,
    /// The ranges of its occurrences, relative to the start of the
    /// statement; empty for a parameter that a later `?NNN` skipped over.
    pub ranges_relative_to_stmt: Vec<ZeroIndexedRange>,
}

pub struct PlaceholderView {
    pub name: Option<Seq<char>>,
    pub ranges: Seq<ZeroIndexedRange>,
}

pub open spec fn opt_str_view(o: Option<String>) -> Option<Seq<char>> {
    match o {
        Some(s) => Some(s@),
        None => None,
    }
}

impl View for Placeholder {
    type V = PlaceholderView;

    open spec fn view(&self) -> PlaceholderView {
        PlaceholderView { name: opt_str_view(self.name), ranges: self.ranges_relative_to_stmt@ }
    }
}

pub open spec fn placeholder_views(v: Seq<Placeholder>) -> Seq<PlaceholderView> {
    v.map_values(|p: Placeholder| p@)
}

impl Placeholder {
    pub fn new(name: Option<String>, ranges_relative_to_stmt: Vec<ZeroIndexedRange>) -> (r: Self)
        ensures
            r.name == name,
            r.ranges_relative_to_stmt == ranges_relative_to_stmt,
    {
        Placeholder { name, ranges_relative_to_stmt }
    }
}

// ---------------------------------------------------------------------------
// Decimal numbers, as `str::parse::<usize>` reads them
// ---------------------------------------------------------------------------

pub open spec fn is_ascii_digit(c: char) -> bool {
    '0' <= c && c <= '9'
}

pub open spec fn digit_value(c: char) -> int {
    c as int - '0' as int
}

pub open spec fn all_digits(s: Seq<char>) -> bool {
    forall|i: int| 0 <= i < s.len() ==> is_ascii_digit(#[trigger] s[i])
}

/// The value of a string of decimal digits.
pub open spec fn decimal_value(s: Seq<char>) -> int
    decreases s.len(),
{
    if s.len() == 0 {
        0
    } else {
        decimal_value(s.drop_last()) * 10 + digit_value(s.last())
    }
}

/// What `str::parse::<usize>` gives for `s`: an optional `+`, then one or
/// more ASCII digits, whose value fits in a `usize`.
pub open spec fn parse_usize_spec(s: Seq<char>) -> Option<usize> {
    let d = if s.len() > 1 && s[0] == '+' {
        s.skip(1)
    } else {
        s
    };
    if d.len() > 0 && all_digits(d) && decimal_value(d) <= usize::MAX {
        Some(decimal_value(d) as usize)
    } else {
        None
    }
}

pub proof fn lemma_decimal_nonneg(s: Seq<char>)
    requires
        all_digits(s),
    ensures
        decimal_value(s) >= 0,
    decreases s.len(),
{
    if s.len() > 0 {
        assert(all_digits(s.drop_last()));
        lemma_decimal_nonneg(s.drop_last());
    }
}

/// A longer string of digits is worth at least as much as its prefix.
pub proof fn lemma_decimal_prefix(s: Seq<char>, n: int)
    requires
        all_digits(s),
        0 <= n <= s.len(),
    ensures
        decimal_value(s.subrange(0, n)) <= decimal_value(s),
    decreases s.len() - n,
{
    if n < s.len() {
        lemma_decimal_prefix(s, n + 1);
        let p = s.subrange(0, n + 1);
        assert(p.drop_last() =~= s.subrange(0, n));
        assert(all_digits(s.subrange(0, n)));
        lemma_decimal_nonneg(s.subrange(0, n));
        assert(is_ascii_digit(s[n]));
    } else {
        assert(s.subrange(0, n) =~= s);
    }
}

/// Reads `s` as `str::parse::<usize>` does.
pub fn parse_usize(s: &[char]) -> (r: Option<usize>)
    ensures
        r == parse_usize_spec(s@),
{
    let mut i: usize = 0;
    if s.len() > 1 && s[0] == '+' {
        i = 1;
    }
    let ghost d = if s@.len() > 1 && s@[0] == '+' {
        s@.skip(1)
    } else {
        s@
    };
    let start = i;
    if i >= s.len() {
        return None;
    }
    let mut value: usize = 0;
    while i < s.len()
        invariant
            start <= i <= s@.len(),
            start == 0 || start == 1,
            d == s@.subrange(start as int, s@.len() as int),
            d == (if s@.len() > 1 && s@[0] == '+' {
                s@.skip(1)
            } else {
                s@
            }),
            all_digits(d.subrange(0, i - start)),
            value == decimal_value(d.subrange(0, i - start)),
        decreases s@.len() - i,
    {
        let c = s[i];
        proof {
            assert(d[i - start] == c);
            assert(d.subrange(0, i - start + 1).drop_last() =~= d.subrange(0, i - start));
        }
        if !('0' <= c && c <= '9') {
            proof {
                assert(!all_digits(d));
            }
            return None;
        }
        let digit = (c as u32 - '0' as u32) as usize;
        proof {
            assert(all_digits(d.subrange(0, i - start + 1)));
        }
        let next = match value.checked_mul(10) {
            Some(v) => v.checked_add(digit),
            None => None,
        };
        match next {
            Some(v) => {
                value = v;
            },
            None => {
                proof {
                    let k = i - start + 1;
                    assert(decimal_value(d.subrange(0, k)) == value * 10 + digit_value(c));
                    assert(value * 10 + digit_value(c) > usize::MAX) by (nonlinear_arith)
                        requires
                            value * 10 > usize::MAX || value * 10 + digit_value(c) > usize::MAX,
                            digit_value(c) >= 0,
                    ;
                    if all_digits(d) {
                        lemma_decimal_prefix(d, k);
                    }
                }
                return None;
            },
        }
        i = i + 1;
    }
    proof {
        assert(d.subrange(0, d.len() as int) =~= d);
    }
    Some(value)
}

// ---------------------------------------------------------------------------
// Specification of the listing
// ---------------------------------------------------------------------------

pub open spec fn empty_placeholder() -> PlaceholderView {
    PlaceholderView { name: None, ranges: seq![] }
}

/// `acc` extended with parameters that have no name and no occurrence up
/// to length `m`.
pub open spec fn pad_placeholders(acc: Seq<PlaceholderView>, m: int) -> Seq<PlaceholderView> {
    if acc.len() >= m {
        acc
    } else {
        acc + Seq::new((m - acc.len()) as nat, |i: int| empty_placeholder())
    }
}

/// A `?NNN` placeholder can be read: it starts with an ASCII character and
/// its number is not zero.
pub open spec fn numbered_ok(s: Seq<char>) -> bool {
    s.len() > 0 && (s[0] as u32) < 128 && parse_usize_spec(s.skip(1)) != Some(0usize)
}

/// The placeholders after one more token; `None` for a `?NNN` that cannot
/// be read.
pub open spec fn placeholder_step(
    acc: Seq<PlaceholderView>,
    t: WithZeroIndexedRange<SQLite3TokenView>,
) -> Option<Seq<PlaceholderView>> {
    match t.value {
        SQLite3TokenView::Placeholder(s, kind) => {
            if kind == SQLite3PlaceholderKind::Question {
                Some(acc.push(PlaceholderView { name: None, ranges: seq![t.range] }))
            } else if kind == SQLite3PlaceholderKind::QuestionNumber {
                if !numbered_ok(s) {
                    None
                } else {
                    match parse_usize_spec(s.skip(1)) {
                        None => Some(acc),
                        Some(v) => {
                            let n = v - 1;
                            let padded = pad_placeholders(acc, n + 1);
                            let p = padded[n];
                            Some(
                                padded.update(
                                    n,
                                    PlaceholderView {
                                        name: if p.name is None {
                                            Some(s)
                                        } else {
                                            p.name
                                        },
                                        ranges: p.ranges.push(t.range),
                                    },
                                ),
                            )
                        },
                    }
                }
            } else {
                Some(acc.push(PlaceholderView { name: Some(s), ranges: seq![t.range] }))
            }
        },
        _ => Some(acc),
    }
}

/// The placeholders of the first `n` tokens, with absolute ranges.
pub open spec fn placeholder_fold(ts: Seq<WithZeroIndexedRange<SQLite3TokenView>>, n: nat) -> Option<
    Seq<PlaceholderView>,
>
    decreases n,
{
    if n == 0 || n > ts.len() {
        Some(seq![])
    } else {
        match placeholder_fold(ts, (n - 1) as nat) {
            None => None,
            Some(acc) => placeholder_step(acc, ts[n - 1]),
        }
    }
}

pub open spec fn relative_range(r: ZeroIndexedRange, base: ZeroIndexedLocation) -> ZeroIndexedRange {
    ZeroIndexedRange { start: loc_sub(r.start, base), end: loc_sub(r.end, base) }
}

pub open spec fn relative_placeholder(p: PlaceholderView, base: ZeroIndexedLocation) -> PlaceholderView {
    PlaceholderView { name: p.name, ranges: p.ranges.map_values(|r: ZeroIndexedRange| relative_range(r, base)) }
}

/// The placeholders of a statement, their ranges relative to the start of
/// its real text; `None` if a `?NNN` placeholder cannot be read.
pub open spec fn placeholders_of(stmt: SingleStatementView) -> Option<Seq<PlaceholderView>> {
    match placeholder_fold(stmt.real_tokens, stmt.real_tokens.len()) {
        None => None,
        Some(ps) => Some(
            ps.map_values(|p: PlaceholderView| relative_placeholder(p, stmt.real_text.range.start)),
        ),
    }
}

/// Every `?NNN` placeholder of `ts` can be read.
pub open spec fn placeholders_readable(ts: Seq<WithZeroIndexedRange<SQLite3TokenView>>) -> bool {
    forall|i: int|
        0 <= i < ts.len() ==> (#[trigger] ts[i].value matches SQLite3TokenView::Placeholder(s, k)
            ==> (k == SQLite3PlaceholderKind::QuestionNumber ==> numbered_ok(s)))
}

pub proof fn lemma_placeholder_fold_some(ts: Seq<WithZeroIndexedRange<SQLite3TokenView>>, n: nat)
    requires
        placeholders_readable(ts),
        n <= ts.len(),
    ensures
        placeholder_fold(ts, n) is Some,
    decreases n,
{
    if n > 0 {
        lemma_placeholder_fold_some(ts, (n - 1) as nat);
        let t = ts[n - 1];
        assert(t.value matches SQLite3TokenView::Placeholder(s, k) ==> (k
            == SQLite3PlaceholderKind::QuestionNumber ==> numbered_ok(s)));
    }
}

/// `b` keeps every slot of `a` and every range in it.
pub open spec fn keeps_slots(a: Seq<PlaceholderView>, b: Seq<PlaceholderView>) -> bool {
    &&& a.len() <= b.len()
    &&& forall|k: int, r: ZeroIndexedRange|
        0 <= k < a.len() && #[trigger] a[k].ranges.contains(r) ==> b[k].ranges.contains(r)
}

proof fn lemma_step_keeps_slots(acc: Seq<PlaceholderView>, t: WithZeroIndexedRange<SQLite3TokenView>)
    ensures
        placeholder_step(acc, t) matches Some(b) ==> keeps_slots(acc, b),
{
    if let SQLite3TokenView::Placeholder(s, kind) = t.value {
        if kind == SQLite3PlaceholderKind::QuestionNumber && numbered_ok(s) {
            if let Some(v) = parse_usize_spec(s.skip(1)) {
                let n = v - 1;
                let padded = pad_placeholders(acc, n + 1);
                let b = placeholder_step(acc, t)->0;
                assert forall|k: int, r: ZeroIndexedRange|
                    0 <= k < acc.len() && #[trigger] acc[k].ranges.contains(r) implies b[k].ranges.contains(r) by {
                    assert(padded[k] == acc[k]);
                    if k == n {
                        let i = choose|i: int| 0 <= i < acc[k].ranges.len() && #[trigger] acc[k].ranges[i] == r;
                        assert(b[k].ranges[i] == r);
                    }
                }
            }
        } else if kind != SQLite3PlaceholderKind::QuestionNumber {
            let b = placeholder_step(acc, t)->0;
            assert forall|k: int, r: ZeroIndexedRange|
                0 <= k < acc.len() && #[trigger] acc[k].ranges.contains(r) implies b[k].ranges.contains(r) by {
                assert(b[k] == acc[k]);
            }
        }
    }
}

/// Token `j` is a `?NNN` placeholder with the number `v`.
pub open spec fn numbered_as(t: SQLite3TokenView, v: usize) -> bool {
    t matches SQLite3TokenView::Placeholder(s, k) && k == SQLite3PlaceholderKind::QuestionNumber
        && parse_usize_spec(s.skip(1)) == Some(v)
}

/// Slot `v` of `ps` holds the range of every `?v` among the first `n`
/// tokens of `ts`.
pub open spec fn slots_hold(
    ps: Seq<PlaceholderView>,
    ts: Seq<WithZeroIndexedRange<SQLite3TokenView>>,
    n: int,
) -> bool {
    forall|j: int, v: usize|
        #![trigger numbered_as(ts[j].value, v), ps[v - 1]]
        0 <= j < n && numbered_as(ts[j].value, v) ==> v >= 1 && ps.len() >= v && ps[v - 1].ranges.contains(
            ts[j].range,
        )
}

proof fn lemma_numbered_slot(ts: Seq<WithZeroIndexedRange<SQLite3TokenView>>, n: nat)
    requires
        n <= ts.len(),
    ensures
        placeholder_fold(ts, n) matches Some(ps) ==> slots_hold(ps, ts, n as int),
    decreases n,
{
    if n > 0 {
        let m = (n - 1) as nat;
        lemma_numbered_slot(ts, m);
        if let Some(acc) = placeholder_fold(ts, m) {
            let t = ts[n - 1];
            lemma_step_keeps_slots(acc, t);
            if let Some(ps) = placeholder_step(acc, t) {
                assert(placeholder_fold(ts, n) == Some(ps));
                assert forall|j: int, v: usize|
                    #![trigger numbered_as(ts[j].value, v), ps[v - 1]]
                    0 <= j < n && numbered_as(ts[j].value, v) implies v >= 1 && ps.len() >= v && ps[v
                        - 1].ranges.contains(ts[j].range) by {
                    if j < m {
                        assert(acc[v - 1].ranges.contains(ts[j].range));
                    } else {
                        if let SQLite3TokenView::Placeholder(s, k) = t.value {
                            assert(numbered_ok(s));
                            let padded = pad_placeholders(acc, v as int);
                            let p = padded[v - 1];
                            assert(ps[v - 1].ranges == p.ranges.push(t.range));
                            assert(ps[v - 1].ranges[p.ranges.len() as int] == t.range);
                        }
                    }
                }
                assert(slots_hold(ps, ts, n as int));
            }
        }
    }
}

/// A numbered placeholder `?N` always lands in slot `N` (counting from
/// one): the list has at least `N` slots, and slot `N` holds the range of
/// every `?N` of the statement, relative to its start.
pub proof fn law_numbered_placeholder_slot(stmt: SingleStatementView)
    ensures
        placeholders_of(stmt) matches Some(ps) ==> slots_hold(
            ps,
            stmt.real_tokens.map_values(
                |t: WithZeroIndexedRange<SQLite3TokenView>|
                    WithZeroIndexedRange {
                        value: t.value,
                        range: relative_range(t.range, stmt.real_text.range.start),
                    },
            ),
            stmt.real_tokens.len() as int,
        ),
{
    let ts = stmt.real_tokens;
    let base = stmt.real_text.range.start;
    let rel = ts.map_values(
        |t: WithZeroIndexedRange<SQLite3TokenView>|
            WithZeroIndexedRange { value: t.value, range: relative_range(t.range, base) },
    );
    lemma_numbered_slot(ts, ts.len());
    if let Some(raw) = placeholder_fold(ts, ts.len()) {
        let ps = placeholders_of(stmt)->0;
        assert forall|j: int, v: usize|
            #![trigger numbered_as(rel[j].value, v), ps[v - 1]]
            0 <= j < ts.len() && numbered_as(rel[j].value, v) implies v >= 1 && ps.len() >= v && ps[v
                - 1].ranges.contains(rel[j].range) by {
            assert(rel[j].value == ts[j].value);
            assert(numbered_as(ts[j].value, v));
            assert(raw[v - 1].ranges.contains(ts[j].range));
            let i = choose|i: int| 0 <= i < raw[v - 1].ranges.len() && #[trigger] raw[v - 1].ranges[i] == ts[j].range;
            assert(ps[v - 1] == relative_placeholder(raw[v - 1], base));
            assert(ps[v - 1].ranges[i] == relative_range(ts[j].range, base));
        }
    }
}

// ---------------------------------------------------------------------------
// Implementation
// ---------------------------------------------------------------------------

fn copy_string(s: &String) -> (r: String)
    ensures
        r@ == s@,
{
    s.clone()
}

/// `acc` with one more token taken into account; `None` for a `?NNN` that
/// cannot be read.
fn add_placeholder(acc: Vec<Placeholder>, t: &WithZeroIndexedRange<SQLite3Token>) -> (r: Option<Vec<Placeholder>>)
    ensures
        match placeholder_step(placeholder_views(acc@), t@) {
            Some(v) => r is Some && placeholder_views(r->0@) == v,
            None => r is None,
        },
{
    let mut result = acc;
    match &t.value {
        SQLite3Token::Placeholder(s, kind) => {
            if matches!(kind, SQLite3PlaceholderKind::Question) {
                let ghost old_v = placeholder_views(result@);
                let mut ranges: Vec<ZeroIndexedRange> = Vec::new();
                ranges.push(t.range);
                let p = Placeholder { name: None, ranges_relative_to_stmt: ranges };
                result.push(p);
                proof {
                    assert(placeholder_views(result@) =~= old_v.push(p@));
                    assert(p@.ranges =~= seq![t.range]);
                }
                Some(result)
            } else if matches!(kind, SQLite3PlaceholderKind::QuestionNumber) {
                let chars = str_chars(s.as_str());
                if chars.len() == 0 || chars[0] as u32 >= 128 {
                    return None;
                }
                let tail = crate::text::chars_slice(&chars, 1, chars.len());
                proof {
                    assert(tail@ =~= s@.skip(1));
                }
                match parse_usize(tail.as_slice()) {
                    None => Some(result),
                    Some(v) => {
                        if v == 0 {
                            return None;
                        }
                        let n = v - 1;
                        let ghost acc_v = placeholder_views(result@);
                        while result.len() < n + 1
                            invariant
                                n + 1 == v,
                                acc_v.len() <= n + 1 ==> placeholder_views(result@) == acc_v + Seq::new(
                                    (result@.len() - acc_v.len()) as nat,
                                    |i: int| empty_placeholder(),
                                ),
                                acc_v.len() <= n + 1 ==> result@.len() <= n + 1,
                                acc_v.len() > n + 1 ==> placeholder_views(result@) == acc_v,
                                result@.len() >= acc_v.len(),
                            decreases n + 1 - result@.len(),
                        {
                            let ghost before = placeholder_views(result@);
                            let p = Placeholder { name: None, ranges_relative_to_stmt: Vec::new() };
                            result.push(p);
                            proof {
                                assert(p@ == empty_placeholder());
                                assert(placeholder_views(result@) =~= before.push(p@));
                                assert(acc_v + Seq::new(
                                    (result@.len() - acc_v.len()) as nat,
                                    |i: int| empty_placeholder(),
                                ) =~= (acc_v + Seq::new(
                                    (result@.len() - 1 - acc_v.len()) as nat,
                                    |i: int| empty_placeholder(),
                                )).push(empty_placeholder()));
                            }
                        }
                        let ghost padded = placeholder_views(result@);
                        proof {
                            if acc_v.len() >= n + 1 {
                                assert(padded == pad_placeholders(acc_v, n + 1));
                            } else {
                                assert(result@.len() == n + 1);
                                assert(padded =~= pad_placeholders(acc_v, n + 1));
                            }
                        }
                        let mut p = result.remove(n);
                        proof {
                            assert(p@ == padded[n as int]);
                        }
                        if p.name.is_none() {
                            p.name = Some(copy_string(s));
                        }
                        p.ranges_relative_to_stmt.push(t.range);
                        result.insert(n, p);
                        proof {
                            assert(placeholder_views(result@) =~= padded.update(n as int, p@));
                        }
                        Some(result)
                    },
                }
            } else {
                let ghost old_v = placeholder_views(result@);
                let mut ranges: Vec<ZeroIndexedRange> = Vec::new();
                ranges.push(t.range);
                let p = Placeholder { name: Some(copy_string(s)), ranges_relative_to_stmt: ranges };
                result.push(p);
                proof {
                    assert(placeholder_views(result@) =~= old_v.push(p@));
                    assert(p@.ranges =~= seq![t.range]);
                }
                Some(result)
            }
        },
        _ => Some(result),
    }
}

/// The placeholders of `stmt`, their ranges relative to the start of its
/// real text; `None` if a `?NNN` placeholder cannot be read (`?0`).
pub fn try_list_placeholders(stmt: &SingleStatement) -> (r: Option<Vec<Placeholder>>)
    ensures
        match placeholders_of(stmt@) {
            Some(v) => r is Some && placeholder_views(r->0@) == v,
            None => r is None,
        },
{
    let ghost ts = stmt@.real_tokens;
    let mut acc: Vec<Placeholder> = Vec::new();
    let mut i: usize = 0;
    proof {
        assert(placeholder_views(acc@) =~= seq![]);
    }
    while i < stmt.real_tokens.len()
        invariant
            i <= stmt.real_tokens@.len(),
            ts == stmt@.real_tokens,
            ts == token_views(stmt.real_tokens@),
            placeholder_fold(ts, i as nat) == Some(placeholder_views(acc@)),
        decreases stmt.real_tokens@.len() - i,
    {
        proof {
            assert(ts[i as int] == stmt.real_tokens@[i as int]@);
        }
        match add_placeholder(acc, &stmt.real_tokens[i]) {
            None => {
                proof {
                    lemma_fold_none_stays(ts, (i + 1) as nat, ts.len());
                }
                return None;
            },
            Some(next) => {
                acc = next;
            },
        }
        i = i + 1;
    }
    let base = stmt.real_text.range.start;
    let mut out: Vec<Placeholder> = Vec::new();
    let mut j: usize = 0;
    let ghost ps = placeholder_views(acc@);
    while j < acc.len()
        invariant
            j <= acc@.len(),
            ps == placeholder_views(acc@),
            placeholder_views(out@) == ps.subrange(0, j as int).map_values(
                |p: PlaceholderView| relative_placeholder(p, base),
            ),
        decreases acc@.len() - j,
    {
        let src = &acc[j];
        let mut ranges: Vec<ZeroIndexedRange> = Vec::new();
        let mut k: usize = 0;
        while k < src.ranges_relative_to_stmt.len()
            invariant
                k <= src.ranges_relative_to_stmt@.len(),
                ranges@ == src.ranges_relative_to_stmt@.subrange(0, k as int).map_values(
                    |r: ZeroIndexedRange| relative_range(r, base),
                ),
            decreases src.ranges_relative_to_stmt@.len() - k,
        {
            let r = src.ranges_relative_to_stmt[k];
            let mut start = r.start;
            let mut end = r.end;
            start.sub_assign(&base);
            end.sub_assign(&base);
            ranges.push(ZeroIndexedRange { start, end });
            proof {
                assert(src.ranges_relative_to_stmt@.subrange(0, k + 1).map_values(
                    |r: ZeroIndexedRange| relative_range(r, base),
                ) =~= src.ranges_relative_to_stmt@.subrange(0, k as int).map_values(
                    |r: ZeroIndexedRange| relative_range(r, base),
                ).push(relative_range(r, base)));
            }
            k = k + 1;
        }
        proof {
            assert(src.ranges_relative_to_stmt@.subrange(0, k as int) =~= src.ranges_relative_to_stmt@);
        }
        let name = match &src.name {
            Some(s) => Some(copy_string(s)),
            None => None,
        };
        let p = Placeholder { name, ranges_relative_to_stmt: ranges };
        let ghost before = placeholder_views(out@);
        out.push(p);
        proof {
            assert(p@ == relative_placeholder(ps[j as int], base));
            assert(placeholder_views(out@) =~= before.push(p@));
            assert(ps.subrange(0, j + 1).map_values(|p: PlaceholderView| relative_placeholder(p, base))
                =~= ps.subrange(0, j as int).map_values(
                |p: PlaceholderView| relative_placeholder(p, base),
            ).push(relative_placeholder(ps[j as int], base)));
        }
        j = j + 1;
    }
    proof {
        assert(ps.subrange(0, ps.len() as int) =~= ps);
    }
    Some(out)
}

/// Once a `?NNN` cannot be read, the listing fails whatever follows.
proof fn lemma_fold_none_stays(ts: Seq<WithZeroIndexedRange<SQLite3TokenView>>, i: nat, n: nat)
    requires
        i <= n <= ts.len(),
        placeholder_fold(ts, i) is None,
    ensures
        placeholder_fold(ts, n) is None,
    decreases n - i,
{
    if i < n {
        lemma_fold_none_stays(ts, i, (n - 1) as nat);
    }
}

/// Lists the placeholders of a statement, in the order in which SQLite
/// numbers its parameters.
///
/// For example, given `"SELECT ?1, $a, ?5, ?2, ?"` this function returns:
/// ```plaintext
/// [("?1", [7:9]), ("$a", [11:13, 19:21]), None, None, ("?5", [15:17]), (None, [23:24])]
/// //                       ^$a     ^2     ^^^^^^^^^                             ^?
/// //                                      implicitly inserted by ?5
/// ```
pub fn list_placeholders(stmt: &SingleStatement) -> (r: Vec<Placeholder>)
    requires
        placeholders_readable(stmt@.real_tokens),
    ensures
        placeholders_of(stmt@) == Some(placeholder_views(r@)),
{
    proof {
        lemma_placeholder_fold_some(stmt@.real_tokens, stmt@.real_tokens.len());
    }
    match try_list_placeholders(stmt) {
        Some(v) => v,
        None => Vec::new(),
    }
}

} // verus!
