//! Zero-indexed positions in a text (line, column), columns counted in
//! characters.
use vstd::prelude::*;

use crate::text::{newline_index, lemma_newline_index_bound, str_chars};

verus! {

/// A location within text, using zero-indexing for both line and column.
#[derive(Clone, Copy, Debug, PartialEq, Eq, Structural)]
pub struct ZeroIndexedLocation {
    pub line: usize,
    pub column: usize,
}

/// `a` comes no later than `b` (lines first, then columns).
pub open spec fn loc_le(a: ZeroIndexedLocation, b: ZeroIndexedLocation) -> bool {
    a.line < b.line || (a.line == b.line && a.column <= b.column)
}

/// `a` comes strictly before `b`.
pub open spec fn loc_lt(a: ZeroIndexedLocation, b: ZeroIndexedLocation) -> bool {
    a.line < b.line || (a.line == b.line && a.column < b.column)
}

/// `a - b`: the position of `a` relative to `b`.
pub open spec fn loc_sub(a: ZeroIndexedLocation, b: ZeroIndexedLocation) -> ZeroIndexedLocation {
    ZeroIndexedLocation {
        line: if a.line >= b.line {
            (a.line - b.line) as usize
        } else {
            0
        },
        column: if a.line == b.line {
            if a.column >= b.column {
                (a.column - b.column) as usize
            } else {
                0
            }
        } else {
            a.column
        },
    }
}

/// Offset, in characters, of the first character of line `line` of `s`
/// when lines are separated by `'\n'`; past the end, `s.len() + 1`.
pub open spec fn line_start_offset(s: Seq<char>, line: nat) -> nat
    decreases s.len(), line,
{
    if line == 0 {
        0
    } else {
        let n = newline_index(s);
        if n >= s.len() {
            s.len() + 1
        } else {
            n + 1 + line_start_offset(s.subrange((n + 1) as int, s.len() as int), (line - 1) as nat)
        }
    }
}

impl ZeroIndexedLocation {
    pub fn new(line: usize, column: usize) -> (r: Self)
        ensures
            r.line == line,
            r.column == column,
    {
        ZeroIndexedLocation { line, column }
    }

    /// `self - rhs`, saturating at zero, columns subtracted only on the
    /// same line.
    pub fn sub(self, rhs: &Self) -> (r: Self)
        ensures
            r == loc_sub(self, *rhs),
    {
        ZeroIndexedLocation {
            line: self.line.saturating_sub(rhs.line),
            column: if self.line == rhs.line {
                self.column.saturating_sub(rhs.column)
            } else {
                self.column
            },
        }
    }

    /// `*self -= rhs`.
    pub fn sub_assign(&mut self, rhs: &Self)
        ensures
            *final(self) == loc_sub(*old(self), *rhs),
    {
        if self.line == rhs.line {
            self.column = self.column.saturating_sub(rhs.column);
        }
        self.line = self.line.saturating_sub(rhs.line);
    }

    /// `self <= other`.
    pub fn le(&self, other: &Self) -> (r: bool)
        ensures
            r == loc_le(*self, *other),
    {
        self.line < other.line || (self.line == other.line && self.column <= other.column)
    }

    /// `self < other`.
    pub fn lt(&self, other: &Self) -> (r: bool)
        ensures
            r == loc_lt(*self, *other),
    {
        self.line < other.line || (self.line == other.line && self.column < other.column)
    }

    /// The character offset of this location in `s`.
    pub fn offset_at(&self, s: &str) -> (r: usize)
        requires
            s@.len() + 1 + self.column <= usize::MAX,
        ensures
            r == line_start_offset(s@, self.line as nat) + self.column,
    {
        let chars = str_chars(s);
        let n = chars.len();
        let mut offset: usize = 0;
        let mut i: usize = 0;
        let mut pos: usize = 0;
        let mut done = false;
        proof {
            assert(s@.subrange(0, n as int) =~= s@);
        }
        while i < self.line && !done
            invariant
                chars@ == s@,
                n == chars@.len(),
                pos <= n,
                !done ==> offset == pos,
                i <= self.line,
                s@.len() + 1 + self.column <= usize::MAX,
                !done ==> line_start_offset(s@, self.line as nat) == pos + line_start_offset(
                    s@.subrange(pos as int, n as int),
                    (self.line - i) as nat,
                ),
                done ==> offset == n + 1 && line_start_offset(s@, self.line as nat) == n + 1,
            decreases self.line - i + (if done { 0int } else { 1int }),
        {
            let mut j = pos;
            while j < n && chars[j] != '\n'
                invariant
                    pos <= j <= n,
                    n == chars@.len(),
                    forall|k: int| pos <= k < j ==> chars@[k] != '\n',
                decreases n - j,
            {
                j = j + 1;
            }
            let ghost t = s@.subrange(pos as int, n as int);
            proof {
                crate::text::lemma_newline_index(t, j - pos);
                lemma_newline_index_bound(t);
            }
            if j < n {
                proof {
                    assert(t.subrange((j - pos) + 1, t.len() as int) =~= s@.subrange(
                        j + 1,
                        n as int,
                    ));
                }
                proof {
                    assert(line_start_offset(t, (self.line - i) as nat) == (j - pos) + 1
                        + line_start_offset(
                        s@.subrange(j + 1, n as int),
                        (self.line - i - 1) as nat,
                    ));
                }
                pos = j + 1;
                offset = pos;
                i = i + 1;
            } else {
                proof {
                    assert(line_start_offset(t, (self.line - i) as nat) == t.len() + 1);
                }
                offset = n + 1;
                done = true;
            }
        }
        proof {
            if !done {
                assert(i == self.line);
            }
        }
        offset + self.column
    }
}

} // verus!
