//! The layout of an XLSX export: the names of its worksheets (a table's
//! name without the characters that a sheet name may not hold, at most 31
//! characters, with a numbered suffix when another sheet took it already),
//! where the selection and the top-left cell go below the header row, and
//! which integers a cell holds as integers.
use vstd::prelude::*;
use vstd::seq_lib::seq_to_set_is_finite;
use vstd::set_lib::lemma_len_subset;

use crate::split_statements::{decimal_chars, decimal_text, digit_char};
use crate::text::{append_chars, chars_eq, str_chars, string_from_chars, string_views};

verus! {

// ---------------------------------------------------------------------------
// Decimal numerals
// ---------------------------------------------------------------------------

pub open spec fn pow10(k: nat) -> nat
    decreases k,
{
    if k == 0 {
        1
    } else {
        10 * pow10((k - 1) as nat)
    }
}

proof fn lemma_decimal_len(n: nat, k: nat)
    requires
        k >= 1,
        n < pow10(k),
    ensures
        1 <= decimal_text(n).len() <= k,
    decreases k,
{
    if n >= 10 {
        assert(k >= 2) by {
            if k == 1 {
                assert(pow10(1) == 10) by {
                    reveal_with_fuel(pow10, 2);
                }
            }
        }
        let p = pow10((k - 1) as nat);
        assert(pow10(k) == 10 * p);
        assert(n / 10 < p) by (nonlinear_arith)
            requires
                n < 10 * p,
        ;
        lemma_decimal_len(n / 10, (k - 1) as nat);
    }
}

proof fn lemma_digit_char(d: nat)
    requires
        d < 10,
    ensures
        digit_char(d) as u32 == d + 48,
{
}

proof fn lemma_digit_not_underscore(d: nat)
    requires
        d < 10,
    ensures
        digit_char(d) != '_',
{
    lemma_digit_char(d);
    assert(('_' as u32) == 95);
}

proof fn lemma_decimal_has_no_underscore(n: nat)
    ensures
        forall|i: int| 0 <= i < decimal_text(n).len() ==> decimal_text(n)[i] != '_',
    decreases n,
{
    let s = decimal_text(n);
    if n >= 10 {
        lemma_decimal_has_no_underscore(n / 10);
        lemma_digit_not_underscore(n % 10);
        assert forall|i: int| 0 <= i < s.len() implies s[i] != '_' by {
            if i < s.len() - 1 {
                assert(s[i] == decimal_text(n / 10)[i]);
            } else {
                assert(s[i] == digit_char(n % 10));
            }
        }
    } else {
        lemma_digit_not_underscore(n);
        assert(s[0] == digit_char(n));
    }
}

proof fn lemma_pow10_exceeds(k: nat)
    ensures
        pow10(k) > k,
    decreases k,
{
    if k > 0 {
        lemma_pow10_exceeds((k - 1) as nat);
    }
}

proof fn lemma_decimal_injective(a: nat, b: nat)
    requires
        decimal_text(a) == decimal_text(b),
    ensures
        a == b,
    decreases a,
{
    lemma_pow10_exceeds(a + 1);
    lemma_pow10_exceeds(b + 1);
    lemma_decimal_len(a, a + 1);
    lemma_decimal_len(b, b + 1);
    if a < 10 && b < 10 {
        lemma_digit_char(a);
        lemma_digit_char(b);
        assert(decimal_text(a)[0] == digit_char(a));
        assert(decimal_text(b)[0] == digit_char(b));
        assert(digit_char(a) == digit_char(b));
        assert(digit_char(a) as u32 == digit_char(b) as u32);
    } else if a >= 10 && b >= 10 {
        lemma_digit_char(a % 10);
        lemma_digit_char(b % 10);
        assert(decimal_text(a).last() == digit_char(a % 10));
        assert(decimal_text(b).last() == digit_char(b % 10));
        assert(digit_char(a % 10) as u32 == digit_char(b % 10) as u32);
        assert(a % 10 == b % 10);
        assert(decimal_text(a / 10) =~= decimal_text(a).drop_last());
        assert(decimal_text(b / 10) =~= decimal_text(b).drop_last());
        lemma_decimal_injective(a / 10, b / 10);
        assert(a == 10 * (a / 10) + a % 10);
        assert(b == 10 * (b / 10) + b % 10);
    } else {
        lemma_pow10_exceeds(a / 10 + 1);
        lemma_pow10_exceeds(b / 10 + 1);
        lemma_decimal_len(a / 10, a / 10 + 1);
        lemma_decimal_len(b / 10, b / 10 + 1);
        assert(decimal_text(a).len() != decimal_text(b).len());
    }
}

proof fn lemma_pow10_20()
    ensures
        pow10(20) == 100000000000000000000,
{
    reveal_with_fuel(pow10, 21);
}

// ---------------------------------------------------------------------------
// Sheet names
// ---------------------------------------------------------------------------

/// The characters that a sheet name may not hold: `*?:[]\/` anywhere, and
/// a quote at its start or end.
pub const INVALID_SHEET_NAME_PATTERN: &'static str = "[*?:\\[\\]\\\\/]|^'|'$";

/// What regex's `Regex::replace_all` leaves of `text` when it replaces each
/// match of `pattern` with nothing; `None` when `pattern` is not a valid
/// regular expression.
pub uninterp spec fn regex_removed(pattern: Seq<char>, text: Seq<char>) -> Option<Seq<char>>;

/// Removes every match of `pattern` from `text` with regex's
/// `Regex::replace_all` and an empty replacement.
///
/// Trusted: the result is the named function `regex_removed` of the
/// pattern and the text.
#[verifier::external_body]
fn regex_remove_all(pattern: &str, text: &str) -> (r: Option<String>)
    ensures
        match regex_removed(pattern@, text@) {
            Some(t) => r matches Some(s) && s@ == t,
            None => r is None,
        },
{
    match regex::Regex::new(pattern) {
        Ok(re) => Some(re.replace_all(text, "").into_owned()),
        Err(_) => None,
    }
}

/// The first `n` characters of `s` (all of them when it is shorter).
pub open spec fn take_chars(s: Seq<char>, n: int) -> Seq<char> {
    if s.len() <= n {
        s
    } else {
        s.subrange(0, n)
    }
}

/// A name that is empty becomes `""` (two quotes).
pub open spec fn nonempty_name(s: Seq<char>) -> Seq<char> {
    if s.len() == 0 {
        seq!['"', '"']
    } else {
        s
    }
}

/// The `k`-th candidate for a sheet named `name`: the first 31 characters
/// of the name; from the second on, as many characters of it as leave room
/// for `_` and `k` within 31, then `_` and `k`.
pub open spec fn numbered_name(name: Seq<char>, k: nat) -> Seq<char> {
    if k <= 1 {
        take_chars(name, 31)
    } else {
        take_chars(name, 31 - 1 - decimal_text(k).len()) + seq!['_'] + decimal_text(k)
    }
}

/// The candidate names from the second on differ from each other.
proof fn lemma_numbered_injective(name: Seq<char>, j: nat, k: nat)
    requires
        2 <= j,
        2 <= k,
        numbered_name(name, j) == numbered_name(name, k),
    ensures
        j == k,
{
    let s = numbered_name(name, j);
    let dj = decimal_text(j);
    let dk = decimal_text(k);
    let pj = take_chars(name, 31 - 1 - dj.len());
    let pk = take_chars(name, 31 - 1 - dk.len());
    lemma_decimal_has_no_underscore(j);
    lemma_decimal_has_no_underscore(k);
    assert(s == pj + seq!['_'] + dj);
    assert(s == pk + seq!['_'] + dk);
    let n = s.len();
    if dj.len() < dk.len() {
        assert(s[n - 1 - dj.len()] == '_');
        assert(s[n - 1 - dj.len()] == dk[dk.len() - 1 - dj.len()]);
    } else if dk.len() < dj.len() {
        assert(s[n - 1 - dk.len()] == '_');
        assert(s[n - 1 - dk.len()] == dj[dj.len() - 1 - dk.len()]);
    }
    assert(dj =~= s.subrange(n - dj.len(), n as int));
    assert(dk =~= s.subrange(n - dk.len(), n as int));
    lemma_decimal_injective(j, k);
}

/// The name of the sheet of a table: the first candidate (see
/// [`numbered_name`]) that no earlier sheet took.
pub open spec fn is_unique_sheet_name(r: Seq<char>, cleaned: Seq<char>, taken: Seq<Seq<char>>) -> bool {
    exists|k: nat|
        #![trigger numbered_name(nonempty_name(cleaned), k)]
        1 <= k <= taken.len() + 2 && r == numbered_name(nonempty_name(cleaned), k) && !taken.contains(r) && forall|j: nat|
            1 <= j < k ==> taken.contains(#[trigger] numbered_name(nonempty_name(cleaned), j))
}

fn contains_name(taken: &Vec<String>, name: &Vec<char>) -> (r: bool)
    ensures
        r == string_views(taken@).contains(name@),
{
    let mut i: usize = 0;
    while i < taken.len()
        invariant
            i <= taken@.len(),
            forall|k: int| 0 <= k < i ==> string_views(taken@)[k] != name@,
        decreases taken.len() - i,
    {
        if chars_eq(&str_chars(taken[i].as_str()), name) {
            proof {
                assert(string_views(taken@)[i as int] == name@);
            }
            return true;
        }
        i = i + 1;
    }
    false
}

fn take_chars_exec(s: &Vec<char>, n: usize) -> (r: Vec<char>)
    ensures
        r@ == take_chars(s@, n as int),
{
    let end = if s.len() <= n {
        s.len()
    } else {
        n
    };
    let mut r: Vec<char> = Vec::new();
    let mut i: usize = 0;
    while i < end
        invariant
            i <= end <= s@.len(),
            r@ == s@.subrange(0, i as int),
        decreases end - i,
    {
        r.push(s[i]);
        proof {
            assert(r@ =~= s@.subrange(0, i + 1));
        }
        i = i + 1;
    }
    proof {
        if s@.len() <= n {
            assert(s@.subrange(0, s@.len() as int) =~= s@);
        }
    }
    r
}

fn numbered_name_exec(name: &Vec<char>, k: u64) -> (r: Vec<char>)
    requires
        k >= 1,
    ensures
        r@ == numbered_name(name@, k as nat),
{
    if k == 1 {
        return take_chars_exec(name, 31);
    }
    let digits = decimal_chars(k);
    proof {
        lemma_pow10_20();
        lemma_decimal_len(k as nat, 20);
    }
    let mut r = take_chars_exec(name, 31 - 1 - digits.len());
    r.push('_');
    append_chars(&mut r, &digits);
    r
}

/// The name of the sheet for a table whose name, without the characters
/// that a sheet name may not hold, is `cleaned`, when the names in `taken`
/// are taken (see [`is_unique_sheet_name`]).
pub fn unique_sheet_name(cleaned: &str, taken: &Vec<String>) -> (r: String)
    requires
        taken@.len() + 2 <= u64::MAX,
    ensures
        is_unique_sheet_name(r@, cleaned@, string_views(taken@)),
{
    let ghost tv = string_views(taken@);
    let c = str_chars(cleaned);
    let name: Vec<char> = if c.len() == 0 {
        let q: Vec<char> = vec!['"', '"'];
        q
    } else {
        c
    };
    let ghost n = nonempty_name(cleaned@);
    assert(name@ == n);
    let mut k: u64 = 1;
    let mut cand = numbered_name_exec(&name, 1);
    let ghost mut used: Set<Seq<char>> = Set::empty();
    proof {
        broadcast use seq_to_set_is_finite;

        tv.lemma_cardinality_of_set();
    }
    while contains_name(taken, &cand)
        invariant
            k >= 1,
            name@ == n,
            tv == string_views(taken@),
            cand@ == numbered_name(n, k as nat),
            k as nat <= tv.len() + 2,
            tv.len() + 2 <= u64::MAX,
            forall|j: nat| 1 <= j < k ==> tv.contains(#[trigger] numbered_name(n, j)),
            used.finite(),
            used.subset_of(tv.to_set()),
            used.len() == (if k >= 2 {
                k - 2
            } else {
                0
            }),
            forall|x: Seq<char>| used.contains(x) ==> exists|j: nat| 2 <= j < k && x == numbered_name(n, j),
            tv.to_set().finite(),
            tv.to_set().len() <= tv.len(),
        decreases tv.len() + 2 - k,
    {
        proof {
            if k >= 2 {
                assert(!used.contains(cand@)) by {
                    if used.contains(cand@) {
                        let j = choose|j: nat| 2 <= j < k && cand@ == numbered_name(n, j);
                        lemma_numbered_injective(n, j, k as nat);
                    }
                }
                used = used.insert(cand@);
                assert(tv.to_set().contains(cand@));
                lemma_len_subset(used, tv.to_set());
                assert(k - 1 <= tv.len());
                assert(used.len() == k - 1);
                assert forall|x: Seq<char>| used.contains(x) implies exists|j: nat| 2 <= j < k + 1 && x
                    == numbered_name(n, j) by {
                    if x != cand@ {
                        let j = choose|j: nat| 2 <= j < k && x == numbered_name(n, j);
                        assert(2 <= j < k + 1 && x == numbered_name(n, j));
                    } else {
                        assert(2 <= k < k + 1 && x == numbered_name(n, k as nat));
                    }
                }
            }
            assert(tv.contains(numbered_name(n, k as nat)));
        }
        k = k + 1;
        cand = numbered_name_exec(&name, k);
    }
    proof {
        assert(!tv.contains(cand@));
        assert(numbered_name(n, k as nat) == cand@);
    }
    string_from_chars(&cand)
}

/// The name of the sheet for the table `table_name` when the names in
/// `taken` are taken: the table's name without what
/// [`INVALID_SHEET_NAME_PATTERN`] matches, then made unique (see
/// [`unique_sheet_name`]); `None` when the pattern does not compile.
pub fn sheet_name(table_name: &str, taken: &Vec<String>) -> (r: Option<String>)
    requires
        taken@.len() + 2 <= u64::MAX,
    ensures
        match regex_removed(INVALID_SHEET_NAME_PATTERN@, table_name@) {
            Some(cleaned) => r matches Some(s) && is_unique_sheet_name(s@, cleaned, string_views(taken@)),
            None => r is None,
        },
{
    match regex_remove_all(INVALID_SHEET_NAME_PATTERN, table_name) {
        Some(cleaned) => Some(unique_sheet_name(cleaned.as_str(), taken)),
        None => None,
    }
}

/// A sheet name is never one that was taken, and never longer than 31
/// characters.
pub proof fn law_sheet_name_is_new_and_short(r: Seq<char>, cleaned: Seq<char>, taken: Seq<Seq<char>>)
    requires
        taken.len() + 2 <= u64::MAX,
        is_unique_sheet_name(r, cleaned, taken),
    ensures
        !taken.contains(r),
        r.len() <= 31,
{
    let k = choose|k: nat|
        #![trigger numbered_name(nonempty_name(cleaned), k)]
        1 <= k <= taken.len() + 2 && r == numbered_name(nonempty_name(cleaned), k) && !taken.contains(r)
            && forall|j: nat| 1 <= j < k ==> taken.contains(#[trigger] numbered_name(nonempty_name(cleaned), j));
    if k >= 2 {
        lemma_pow10_20();
        lemma_decimal_len(k, 20);
    }
}

// ---------------------------------------------------------------------------
// Cells
// ---------------------------------------------------------------------------

/// The selection `(first_row, first_col, last_row, last_col)` in the rows
/// of the result, as cells of the sheet, whose first row is the header.
pub fn xlsx_selection(selection: (u32, u16, u32, u16)) -> (r: (u32, u16, u32, u16))
    requires
        selection.0 < u32::MAX,
        selection.2 < u32::MAX,
    ensures
        r == (((selection.0 + 1) as u32, selection.1, (selection.2 + 1) as u32, selection.3)),
{
    (selection.0 + 1, selection.1, selection.2 + 1, selection.3)
}

/// The top-left cell of the view, `(row, col)` in the rows of the result,
/// as a cell of the sheet: the first row stays the header row.
pub fn xlsx_top_left(top_left: (u32, u16)) -> (r: (u32, u16))
    requires
        top_left.0 < u32::MAX,
    ensures
        r == (if top_left.0 == 0 {
            (0u32, top_left.1)
        } else {
            ((top_left.0 + 1) as u32, top_left.1)
        }),
{
    if top_left.0 == 0 {
        (0, top_left.1)
    } else {
        (top_left.0 + 1, top_left.1)
    }
}

/// An integer that a cell holds as an integer: one in the range of `i32`
/// (Excel has no 64-bit integers; others become floating-point numbers).
pub fn xlsx_integer(v: i64) -> (r: Option<i32>)
    ensures
        r == (if i32::MIN <= v <= i32::MAX {
            Some(v as i32)
        } else {
            None
        }),
{
    if -2147483648i64 <= v && v <= 2147483647i64 {
        Some(v as i32)
    } else {
        None
    }
}

} // verus!
