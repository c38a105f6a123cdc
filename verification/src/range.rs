//! Ranges of text between two zero-indexed locations, and the text they cover.
use vstd::prelude::*;

use crate::location::{ZeroIndexedLocation, loc_le};
use crate::text::{append_chars, chars_slice, str_chars, str_views, string_from_chars};

verus! {

/// A range within text, using zero-indexing for both line and column.
#[derive(Clone, Copy, Debug, PartialEq, Eq, Structural)]
pub struct ZeroIndexedRange {
    pub start: ZeroIndexedLocation,
    pub end: ZeroIndexedLocation,
}

/// A value along with the range it was found at.
#[derive(Clone, Debug, PartialEq, Eq)]
pub struct WithZeroIndexedRange<T> {
    pub value: T,
    pub range: ZeroIndexedRange,
}

/// The characters `start..end` of `s`, both bounds clipped to the length of `s`.
pub open spec fn slice_chars(s: Seq<char>, start: int, end: int) -> Seq<char> {
    let a = if start <= s.len() {
        start
    } else {
        s.len() as int
    };
    let b = if end <= s.len() {
        end
    } else {
        s.len() as int
    };
    s.subrange(a, b)
}

/// `parts` joined with `'\n'` between consecutive parts.
pub open spec fn join_lines(parts: Seq<Seq<char>>) -> Seq<char>
    decreases parts.len(),
{
    if parts.len() == 0 {
        seq![]
    } else if parts.len() == 1 {
        parts[0]
    } else {
        join_lines(parts.drop_last()) + seq!['\n'] + parts.last()
    }
}

/// `r` can be cut out of `lines`: its lines exist, it does not run backwards,
/// and a range over several lines starts within its first line.
pub open spec fn range_fits(lines: Seq<Seq<char>>, r: ZeroIndexedRange) -> bool {
    &&& r.start.line <= r.end.line
    &&& r.end.line < lines.len()
    &&& r.start.line == r.end.line ==> r.start.column <= r.end.column
    &&& r.start.line < r.end.line ==> r.start.column <= lines[r.start.line as int].len()
}

/// The text covered by `r` in `lines`.
pub open spec fn range_text(lines: Seq<Seq<char>>, r: ZeroIndexedRange) -> Seq<char> {
    if r.start.line == r.end.line {
        slice_chars(lines[r.start.line as int], r.start.column as int, r.end.column as int)
    } else {
        let first = lines[r.start.line as int];
        join_lines(
            seq![first.subrange(r.start.column as int, first.len() as int)] + lines.subrange(
                r.start.line + 1,
                r.end.line as int,
            ) + seq![slice_chars(lines[r.end.line as int], 0, r.end.column as int)],
        )
    }
}

pub proof fn lemma_join_lines_push(parts: Seq<Seq<char>>, x: Seq<char>)
    requires
        parts.len() > 0,
    ensures
        join_lines(parts.push(x)) == join_lines(parts) + seq!['\n'] + x,
{
    assert(parts.push(x).drop_last() =~= parts);
}

pub proof fn lemma_join_lines_concat(xs: Seq<Seq<char>>, ys: Seq<Seq<char>>)
    requires
        xs.len() > 0,
        ys.len() > 0,
    ensures
        join_lines(xs + ys) == join_lines(xs) + seq!['\n'] + join_lines(ys),
    decreases ys.len(),
{
    if ys.len() == 1 {
        assert(xs + ys =~= xs.push(ys[0]));
        lemma_join_lines_push(xs, ys[0]);
    } else {
        let init = ys.drop_last();
        lemma_join_lines_concat(xs, init);
        assert(xs + ys =~= (xs + init).push(ys.last()));
        lemma_join_lines_push(xs + init, ys.last());
        assert(ys =~= init.push(ys.last()));
        lemma_join_lines_push(init, ys.last());
    }
}

proof fn lemma_slice_chars_split(s: Seq<char>, a: int, b: int, c: int)
    requires
        0 <= a <= b <= c,
    ensures
        slice_chars(s, a, b) + slice_chars(s, b, c) == slice_chars(s, a, c),
{
    assert(slice_chars(s, a, b) + slice_chars(s, b, c) =~= slice_chars(s, a, c));
}

/// Two ranges that meet at `b` cover, one after the other, the text of the
/// range from the start of the first to the end of the second.
pub proof fn lemma_range_text_split(
    lines: Seq<Seq<char>>,
    a: ZeroIndexedLocation,
    b: ZeroIndexedLocation,
    c: ZeroIndexedLocation,
)
    requires
        range_fits(lines, ZeroIndexedRange { start: a, end: b }),
        range_fits(lines, ZeroIndexedRange { start: b, end: c }),
    ensures
        range_fits(lines, ZeroIndexedRange { start: a, end: c }),
        range_text(lines, ZeroIndexedRange { start: a, end: b }) + range_text(lines, ZeroIndexedRange { start: b, end: c })
            == range_text(lines, ZeroIndexedRange { start: a, end: c }),
{
    let ab = range_text(lines, ZeroIndexedRange { start: a, end: b });
    let bc = range_text(lines, ZeroIndexedRange { start: b, end: c });
    let ac = range_text(lines, ZeroIndexedRange { start: a, end: c });
    let la = lines[a.line as int];
    let lb = lines[b.line as int];
    let lc = lines[c.line as int];
    if a.line == b.line && b.line == c.line {
        lemma_slice_chars_split(la, a.column as int, b.column as int, c.column as int);
    } else if a.line == b.line {
        // b.line < c.line
        let mid = lines.subrange(b.line + 1, c.line as int);
        let last = slice_chars(lc, 0, c.column as int);
        let p_bc = seq![lb.subrange(b.column as int, lb.len() as int)] + mid + seq![last];
        let p_ac = seq![la.subrange(a.column as int, la.len() as int)] + mid + seq![last];
        let rest = mid + seq![last];
        assert(p_bc =~= seq![lb.subrange(b.column as int, lb.len() as int)] + rest);
        assert(p_ac =~= seq![la.subrange(a.column as int, la.len() as int)] + rest);
        lemma_join_lines_concat(seq![lb.subrange(b.column as int, lb.len() as int)], rest);
        lemma_join_lines_concat(seq![la.subrange(a.column as int, la.len() as int)], rest);
        assert(ab + lb.subrange(b.column as int, lb.len() as int) =~= la.subrange(a.column as int, la.len() as int));
    } else if b.line == c.line {
        // a.line < b.line
        let first = la.subrange(a.column as int, la.len() as int);
        let mid = lines.subrange(a.line + 1, b.line as int);
        let pre = seq![first] + mid;
        assert(seq![first] + mid + seq![slice_chars(lb, 0, b.column as int)] =~= pre.push(
            slice_chars(lb, 0, b.column as int),
        ));
        assert(seq![first] + mid + seq![slice_chars(lc, 0, c.column as int)] =~= pre.push(
            slice_chars(lc, 0, c.column as int),
        ));
        lemma_join_lines_push(pre, slice_chars(lb, 0, b.column as int));
        lemma_join_lines_push(pre, slice_chars(lc, 0, c.column as int));
        lemma_slice_chars_split(lb, 0, b.column as int, c.column as int);
    } else {
        // a.line < b.line < c.line
        let first = la.subrange(a.column as int, la.len() as int);
        let mid1 = lines.subrange(a.line + 1, b.line as int);
        let mid2 = lines.subrange(b.line + 1, c.line as int);
        let last = slice_chars(lc, 0, c.column as int);
        let q = seq![first] + mid1;
        let tail = mid2 + seq![last];
        assert(seq![first] + mid1 + seq![slice_chars(lb, 0, b.column as int)] =~= q.push(
            slice_chars(lb, 0, b.column as int),
        ));
        lemma_join_lines_push(q, slice_chars(lb, 0, b.column as int));
        assert(seq![lb.subrange(b.column as int, lb.len() as int)] + mid2 + seq![last] =~= seq![
            lb.subrange(b.column as int, lb.len() as int),
        ] + tail);
        lemma_join_lines_concat(seq![lb.subrange(b.column as int, lb.len() as int)], tail);
        assert(lines.subrange(a.line + 1, c.line as int) =~= mid1 + seq![lb] + mid2);
        assert(seq![first] + lines.subrange(a.line + 1, c.line as int) + seq![last] =~= q + (seq![lb] + tail));
        lemma_join_lines_concat(q, seq![lb] + tail);
        lemma_join_lines_concat(seq![lb], tail);
        assert(slice_chars(lb, 0, b.column as int) + lb.subrange(b.column as int, lb.len() as int) =~= lb);
    }
}

/// Characters `start..end` of `s` (both optional, defaulting to the whole
/// string), counted in characters and clipped to the string.
pub(crate) fn slice_unicode_str(s: &str, start: Option<usize>, end: Option<usize>) -> (r: String)
    requires
        (match end {
            Some(e) => e as int,
            None => s@.len() as int,
        }) >= (match start {
            Some(b) => b as int,
            None => 0int,
        }),
    ensures
        r@ == slice_chars(
            s@,
            match start {
                Some(b) => b as int,
                None => 0int,
            },
            match end {
                Some(e) => e as int,
                None => s@.len() as int,
            },
        ),
{
    let chars = str_chars(s);
    let len = chars.len();
    let a = match start {
        Some(b) => b,
        None => 0,
    };
    let b = match end {
        Some(e) => e,
        None => len,
    };
    let a2 = if a <= len {
        a
    } else {
        len
    };
    let b2 = if b <= len {
        b
    } else {
        len
    };
    let v = chars_slice(&chars, a2, b2);
    string_from_chars(&v)
}

impl ZeroIndexedRange {
    pub fn new(start: ZeroIndexedLocation, end: ZeroIndexedLocation) -> (r: Self)
        ensures
            r.start == start,
            r.end == end,
    {
        ZeroIndexedRange { start, end }
    }

    pub fn new4(start_line: usize, start_column: usize, end_line: usize, end_column: usize) -> (r:
        Self)
        ensures
            r.start == (ZeroIndexedLocation { line: start_line, column: start_column }),
            r.end == (ZeroIndexedLocation { line: end_line, column: end_column }),
    {
        Self::new(
            ZeroIndexedLocation::new(start_line, start_column),
            ZeroIndexedLocation::new(end_line, end_column),
        )
    }

    /// Extracts the text covered by the range.
    pub fn get_text(&self, lines: &[&str]) -> (r: String)
        requires
            range_fits(str_views(lines@), *self),
        ensures
            r@ == range_text(str_views(lines@), *self),
    {
        let ghost lv = str_views(lines@);
        if self.start.line == self.end.line {
            assert(lv[self.start.line as int] == lines@[self.start.line as int]@);
            slice_unicode_str(lines[self.start.line], Some(self.start.column), Some(self.end.column))
        } else {
            let first_line = str_chars(lines[self.start.line]);
            let first = chars_slice(&first_line, self.start.column, first_line.len());
            let mut acc: Vec<char> = Vec::new();
            append_chars(&mut acc, &first);
            let ghost first_part = first@;
            proof {
                assert(acc@ == join_lines(seq![first_part]));
                assert(seq![first_part] + lv.subrange(self.start.line + 1, self.start.line + 1)
                    =~= seq![first_part]);
            }
            let mut k = self.start.line + 1;
            while k < self.end.line
                invariant
                    self.start.line + 1 <= k <= self.end.line,
                    self.end.line < lines@.len(),
                    lv == str_views(lines@),
                    acc@ == join_lines(seq![first_part] + lv.subrange(self.start.line + 1, k as int)),
                decreases self.end.line - k,
            {
                let ghost before = seq![first_part] + lv.subrange(self.start.line + 1, k as int);
                acc.push('\n');
                let line_chars = str_chars(lines[k]);
                append_chars(&mut acc, &line_chars);
                proof {
                    lemma_join_lines_push(before, lv[k as int]);
                    assert(before.push(lv[k as int]) =~= seq![first_part] + lv.subrange(
                        self.start.line + 1,
                        k + 1,
                    ));
                }
                k = k + 1;
            }
            let last = slice_unicode_str(lines[self.end.line], None, Some(self.end.column));
            let last_chars = str_chars(last.as_str());
            let ghost before = seq![first_part] + lv.subrange(
                self.start.line + 1,
                self.end.line as int,
            );
            acc.push('\n');
            append_chars(&mut acc, &last_chars);
            proof {
                lemma_join_lines_push(before, last_chars@);
                assert(acc@ =~= join_lines(before.push(last_chars@)));
                assert(before.push(last_chars@) =~= seq![first_part] + lv.subrange(
                    self.start.line + 1,
                    self.end.line as int,
                ) + seq![slice_chars(lv[self.end.line as int], 0, self.end.column as int)]);
                assert(first_part == lv[self.start.line as int].subrange(
                    self.start.column as int,
                    lv[self.start.line as int].len() as int,
                ));
            }
            string_from_chars(&acc)
        }
    }

    /// Whether the range can be cut out of `lines` (see [`range_fits`]).
    pub fn fits(&self, lines: &[&str]) -> (r: bool)
        ensures
            r == range_fits(str_views(lines@), *self),
    {
        let ghost lv = str_views(lines@);
        if !(self.start.line <= self.end.line && self.end.line < lines.len()) {
            return false;
        }
        if self.start.line == self.end.line {
            return self.start.column <= self.end.column;
        }
        let first = str_chars(lines[self.start.line]);
        proof {
            assert(lv[self.start.line as int] == lines@[self.start.line as int]@);
        }
        self.start.column <= first.len()
    }

    /// Extracts the text covered by the range, with the range kept beside it.
    pub fn get_text_with_range(&self, lines: &[&str]) -> (r: WithZeroIndexedRange<String>)
        requires
            range_fits(str_views(lines@), *self),
        ensures
            r.value@ == range_text(str_views(lines@), *self),
            r.range == *self,
    {
        WithZeroIndexedRange { value: self.get_text(lines), range: *self }
    }
}

} // verus!
