//! Character-level helpers on text: conversion between strings and character
//! vectors, splitting into lines, and a few pure predicates.
use vstd::prelude::*;
use vstd::string::*;
use vstd::std_specs::iter::IteratorSpec;

verus! {

broadcast use vstd::string::group_string_axioms;

/// The characters of `s`, in order.
pub fn str_chars(s: &str) -> (r: Vec<char>)
    ensures
        r@ == s@,
{
    let mut it = s.chars();
    let mut r: Vec<char> = Vec::new();
    loop
        invariant
            r@ + it.remaining() == s@,
            it.obeys_prophetic_iter_laws(),
            it.decrease() is Some,
        ensures
            r@ == s@,
        decreases it.decrease()->0,
    {
        let ghost before = it.remaining();
        match it.next() {
            Some(c) => {
                r.push(c);
                assert(r@ + it.remaining() =~= s@) by {
                    assert(before == seq![c] + it.remaining());
                }
            },
            None => {
                assert(r@ =~= s@);
                break ;
            },
        }
    }
    r
}

/// The texts of a sequence of strings.
pub open spec fn string_views(v: Seq<String>) -> Seq<Seq<char>> {
    v.map_values(|s: String| s@)
}

/// The string made of the characters of `v`.
///
/// Trusted: calls std's `FromIterator<&char> for String`, which appends the
/// characters one after another; the contract claims that the string's
/// characters are exactly those of `v`, in order.
#[verifier::external_body]
pub(crate) fn string_from_chars(v: &[char]) -> (r: String)
    ensures
        r@ == v@,
{
    v.iter().collect()
}

/// Appends the characters of `src` to `dst`.
pub fn append_chars(dst: &mut Vec<char>, src: &[char])
    ensures
        final(dst)@ == old(dst)@ + src@,
{
    let mut i: usize = 0;
    while i < src.len()
        invariant
            i <= src@.len(),
            dst@ == old(dst)@ + src@.subrange(0, i as int),
        decreases src@.len() - i,
    {
        dst.push(src[i]);
        i = i + 1;
        proof {
            assert(src@.subrange(0, i as int) =~= src@.subrange(0, i - 1) + seq![src@[i - 1]]);
        }
    }
    proof {
        assert(src@.subrange(0, i as int) =~= src@);
    }
}

/// `s[from..to]` as a new vector.
pub fn chars_slice(s: &[char], from: usize, to: usize) -> (r: Vec<char>)
    requires
        from <= to <= s@.len(),
    ensures
        r@ == s@.subrange(from as int, to as int),
{
    let mut r: Vec<char> = Vec::new();
    let mut i = from;
    while i < to
        invariant
            from <= i <= to,
            to <= s@.len(),
            r@ == s@.subrange(from as int, i as int),
        decreases to - i,
    {
        r.push(s[i]);
        i = i + 1;
        proof {
            assert(s@.subrange(from as int, i as int) =~= s@.subrange(from as int, i - 1) + seq![
                s@[i - 1],
            ]);
        }
    }
    r
}

/// The characters of `lit`, as a vector.
pub fn lit_chars(lit: &str) -> (r: Vec<char>)
    ensures
        r@ == lit@,
{
    str_chars(lit)
}

/// `a == b` on character sequences.
pub fn chars_eq(a: &[char], b: &[char]) -> (r: bool)
    ensures
        r == (a@ == b@),
{
    if a.len() != b.len() {
        return false;
    }
    let mut i: usize = 0;
    while i < a.len()
        invariant
            a@.len() == b@.len(),
            i <= a@.len(),
            forall|k: int| 0 <= k < i ==> a@[k] == b@[k],
        decreases a@.len() - i,
    {
        if a[i] != b[i] {
            return false;
        }
        i = i + 1;
    }
    assert(a@ =~= b@);
    true
}

/// Whether `s` starts with `prefix`.
pub fn chars_starts_with(s: &[char], prefix: &[char]) -> (r: bool)
    ensures
        r == (prefix@.len() <= s@.len() && s@.subrange(0, prefix@.len() as int) == prefix@),
{
    if prefix.len() > s.len() {
        return false;
    }
    let mut i: usize = 0;
    while i < prefix.len()
        invariant
            prefix@.len() <= s@.len(),
            i <= prefix@.len(),
            forall|k: int| 0 <= k < i ==> s@[k] == prefix@[k],
        decreases prefix@.len() - i,
    {
        if s[i] != prefix[i] {
            proof {
                assert(s@.subrange(0, prefix@.len() as int)[i as int] != prefix@[i as int]);
            }
            return false;
        }
        i = i + 1;
    }
    assert(s@.subrange(0, prefix@.len() as int) =~= prefix@);
    true
}

/// Index of the first `'\n'` in `s`, or `s.len()` when there is none.
pub open spec fn newline_index(s: Seq<char>) -> nat
    decreases s.len(),
{
    if s.len() == 0 {
        0
    } else if s[0] == '\n' {
        0
    } else {
        1 + newline_index(s.drop_first())
    }
}

/// A line without its terminator: a `'\r'` just before the `'\n'` is dropped.
pub open spec fn strip_cr(line: Seq<char>) -> Seq<char> {
    if line.len() > 0 && line.last() == '\r' {
        line.drop_last()
    } else {
        line
    }
}

/// The lines of `s` as std's `str::lines` yields them: split at `'\n'`, a
/// `'\r'` right before a `'\n'` removed, and no empty line after a final
/// `'\n'`.
pub open spec fn lines_of(s: Seq<char>) -> Seq<Seq<char>>
    decreases s.len(),
{
    if s.len() == 0 {
        seq![]
    } else {
        let n = newline_index(s);
        if n >= s.len() {
            seq![s]
        } else {
            seq![strip_cr(s.subrange(0, n as int))] + lines_of(s.subrange((n + 1) as int, s.len() as int))
        }
    }
}

pub proof fn lemma_newline_index(s: Seq<char>, j: int)
    requires
        0 <= j <= s.len(),
        forall|k: int| 0 <= k < j ==> s[k] != '\n',
        j == s.len() || s[j] == '\n',
    ensures
        newline_index(s) == j,
    decreases s.len(),
{
    if s.len() > 0 && s[0] != '\n' {
        lemma_newline_index(s.drop_first(), j - 1);
    }
}

pub proof fn lemma_newline_index_bound(s: Seq<char>)
    ensures
        newline_index(s) <= s.len(),
        newline_index(s) < s.len() ==> s[newline_index(s) as int] == '\n',
        forall|k: int| 0 <= k < newline_index(s) ==> s[k] != '\n',
    decreases s.len(),
{
    if s.len() > 0 && s[0] != '\n' {
        lemma_newline_index_bound(s.drop_first());
        assert forall|k: int| 0 <= k < newline_index(s) implies s[k] != '\n' by {
            if k > 0 {
                assert(s[k] == s.drop_first()[k - 1]);
            }
        }
    }
}

/// The views of a slice of string slices.
pub open spec fn str_views(v: Seq<&str>) -> Seq<Seq<char>> {
    v.map_values(|l: &str| l@)
}

/// The lines of `sql`, as `str::lines` gives them.
pub fn text_lines(sql: &str) -> (r: Vec<&str>)
    ensures
        str_views(r@) == lines_of(sql@),
{
    let chars = str_chars(sql);
    let n = chars.len();
    let mut pos: usize = 0;
    let mut r: Vec<&str> = Vec::new();
    proof {
        assert(sql@.subrange(0, n as int) =~= sql@);
        assert(str_views(r@) =~= Seq::<Seq<char>>::empty());
        assert(Seq::<Seq<char>>::empty() + lines_of(sql@) =~= lines_of(sql@));
    }
    while pos < n
        invariant
            chars@ == sql@,
            n == chars@.len(),
            pos <= n,
            str_views(r@) + lines_of(sql@.subrange(pos as int, n as int)) == lines_of(sql@),
        decreases n - pos,
    {
        let mut i = pos;
        while i < n && chars[i] != '\n'
            invariant
                pos <= i <= n,
                n == chars@.len(),
                forall|k: int| pos <= k < i ==> chars@[k] != '\n',
            decreases n - i,
        {
            i = i + 1;
        }
        let mut line_end = i;
        if i < n && i > pos && chars[i - 1] == '\r' {
            line_end = i - 1;
        }
        let line = sql.substring_char(pos, line_end);
        let ghost t = sql@.subrange(pos as int, n as int);
        proof {
            lemma_newline_index(t, i - pos);
            assert(t.subrange(0, (i - pos) as int) =~= sql@.subrange(pos as int, i as int));
            if i < n {
                assert(t.subrange((i - pos) + 1, t.len() as int) =~= sql@.subrange(
                    i + 1,
                    n as int,
                ));
                if i > pos && chars@[i - 1] == '\r' {
                    assert(strip_cr(t.subrange(0, (i - pos) as int)) =~= sql@.subrange(
                        pos as int,
                        line_end as int,
                    ));
                } else {
                    assert(strip_cr(t.subrange(0, (i - pos) as int)) =~= sql@.subrange(
                        pos as int,
                        line_end as int,
                    ));
                }
            } else {
                assert(t =~= sql@.subrange(pos as int, line_end as int));
            }
        }
        let ghost old_r = r@;
        r.push(line);
        pos = if i < n {
            i + 1
        } else {
            n
        };
        proof {
            assert(str_views(r@) =~= str_views(old_r) + seq![line@]);
            if pos == n {
                assert(sql@.subrange(pos as int, n as int) =~= Seq::<char>::empty());
            }
            assert(str_views(r@) + lines_of(sql@.subrange(pos as int, n as int)) =~= str_views(
                old_r,
            ) + lines_of(t));
        }
    }
    proof {
        assert(sql@.subrange(pos as int, n as int) =~= Seq::<char>::empty());
        assert(str_views(r@) + Seq::<Seq<char>>::empty() =~= str_views(r@));
    }
    r
}

} // verus!
