//! The list of the SQL functions of the bundled SQLite, sorted, as a JSON
//! array of strings; and the order of text that the sorting uses.
use vstd::prelude::*;

use crate::json::{json_string_array, json_string_array_spec};
use crate::sqlite::{open_in_memory, query_texts};
use crate::text::{str_chars, string_from_chars, string_views};

verus! {

// ---------------------------------------------------------------------------
// The order of text
// ---------------------------------------------------------------------------

/// `a` comes before `b` in the order of `String`: lexicographic by
/// code point (the same as by UTF-8 byte), a proper prefix first.
pub open spec fn text_lt(a: Seq<char>, b: Seq<char>) -> bool
    decreases a.len(),
{
    if a.len() == 0 {
        b.len() > 0
    } else if b.len() == 0 {
        false
    } else if a[0] != b[0] {
        (a[0] as int) < (b[0] as int)
    } else {
        text_lt(a.drop_first(), b.drop_first())
    }
}

pub proof fn lemma_text_lt_asymmetric(a: Seq<char>, b: Seq<char>)
    ensures
        text_lt(a, b) ==> !text_lt(b, a),
    decreases a.len(),
{
    if a.len() > 0 && b.len() > 0 && a[0] == b[0] {
        lemma_text_lt_asymmetric(a.drop_first(), b.drop_first());
    }
}

pub proof fn lemma_text_lt_transitive(a: Seq<char>, b: Seq<char>, c: Seq<char>)
    requires
        text_lt(a, b),
        text_lt(b, c),
    ensures
        text_lt(a, c),
    decreases a.len(),
{
    if a.len() > 0 && a[0] == b[0] && b[0] == c[0] {
        lemma_text_lt_transitive(a.drop_first(), b.drop_first(), c.drop_first());
    }
}

pub proof fn lemma_text_lt_total(a: Seq<char>, b: Seq<char>)
    ensures
        a == b || text_lt(a, b) || text_lt(b, a),
    decreases a.len(),
{
    if a.len() == 0 && b.len() == 0 {
        assert(a =~= b);
    } else if a.len() > 0 && b.len() > 0 {
        if a[0] == b[0] {
            lemma_text_lt_total(a.drop_first(), b.drop_first());
            if a.drop_first() == b.drop_first() {
                assert(a =~= seq![a[0]] + a.drop_first());
                assert(b =~= seq![b[0]] + b.drop_first());
                assert(a =~= b);
            }
        } else {
        }
    }
}

/// Each text of `t` comes no later than the ones after it.
pub open spec fn texts_sorted(t: Seq<Seq<char>>) -> bool {
    forall|i: int, j: int| 0 <= i < j < t.len() ==> !text_lt(#[trigger] t[j], #[trigger] t[i])
}

/// `t` holds the texts of `s`, each as often, in order.
pub open spec fn sorted_texts_of(s: Seq<Seq<char>>, t: Seq<Seq<char>>) -> bool {
    texts_sorted(t) && t.to_multiset() == s.to_multiset()
}

/// Sorting texts has one result: two sorted sequences that hold the same
/// texts, each as often, are the same sequence.
pub proof fn law_sorted_texts_unique(s: Seq<Seq<char>>, t1: Seq<Seq<char>>, t2: Seq<Seq<char>>)
    requires
        sorted_texts_of(s, t1),
        sorted_texts_of(s, t2),
    ensures
        t1 == t2,
    decreases t1.len(),
{
    broadcast use vstd::seq_lib::to_multiset_len, vstd::seq_lib::to_multiset_contains, vstd::seq_lib::to_multiset_remove;

    assert(t1.len() == t1.to_multiset().len());
    assert(t2.len() == t2.to_multiset().len());
    if t1.len() == 0 {
        assert(t1 =~= t2);
    } else {
        let x = t1[0];
        let y = t2[0];
        assert(t1.to_multiset().count(x) > 0 ==> t1.contains(x));
        assert(t1.contains(x));
        assert(t2.to_multiset().count(x) > 0);
        assert(t2.contains(x));
        assert(t1.to_multiset().count(y) > 0) by {
            assert(t2.contains(y));
            assert(t2.to_multiset().count(y) > 0);
        }
        assert(t1.contains(y));
        let j = choose|j: int| 0 <= j < t2.len() && t2[j] == x;
        let k = choose|k: int| 0 <= k < t1.len() && t1[k] == y;
        if j > 0 {
            assert(!text_lt(t2[j], t2[0]));
        }
        if k > 0 {
            assert(!text_lt(t1[k], t1[0]));
        }
        lemma_text_lt_total(x, y);
        assert(x == y);
        let r1 = t1.remove(0);
        let r2 = t2.remove(0);
        assert(r1.to_multiset() == t1.to_multiset().remove(x));
        assert(r2.to_multiset() == t2.to_multiset().remove(y));
        assert(texts_sorted(r1)) by {
            assert forall|a: int, b: int| 0 <= a < b < r1.len() implies !text_lt(#[trigger] r1[b], #[trigger] r1[a]) by {
                assert(r1[a] == t1[a + 1] && r1[b] == t1[b + 1]);
            }
        }
        assert(texts_sorted(r2)) by {
            assert forall|a: int, b: int| 0 <= a < b < r2.len() implies !text_lt(#[trigger] r2[b], #[trigger] r2[a]) by {
                assert(r2[a] == t2[a + 1] && r2[b] == t2[b + 1]);
            }
        }
        law_sorted_texts_unique(r1, r1, r2);
        assert(t1 =~= seq![x] + r1);
        assert(t2 =~= seq![y] + r2);
    }
}

/// Whether `a` comes before `b` (see [`text_lt`]).
pub fn text_less(a: &[char], b: &[char]) -> (r: bool)
    ensures
        r == text_lt(a@, b@),
{
    let mut i: usize = 0;
    proof {
        assert(a@.skip(0) =~= a@);
        assert(b@.skip(0) =~= b@);
    }
    while i < a.len() && i < b.len() && a[i] == b[i]
        invariant
            i <= a@.len(),
            i <= b@.len(),
            text_lt(a@, b@) == text_lt(a@.skip(i as int), b@.skip(i as int)),
        decreases a@.len() - i,
    {
        proof {
            assert(a@.skip(i as int).drop_first() =~= a@.skip(i + 1));
            assert(b@.skip(i as int).drop_first() =~= b@.skip(i + 1));
        }
        i = i + 1;
    }
    proof {
        if i < a@.len() && i < b@.len() {
            assert(a@.skip(i as int)[0] == a@[i as int]);
            assert(b@.skip(i as int)[0] == b@[i as int]);
        }
    }
    if i == a.len() {
        i < b.len()
    } else if i == b.len() {
        false
    } else {
        a[i] < b[i]
    }
}

fn copy_text(s: &String) -> (r: String)
    ensures
        r@ == s@,
{
    s.clone()
}

/// `names` sorted in the order of text (see [`text_lt`]); equal texts keep
/// their order.
pub fn sort_texts(names: &Vec<String>) -> (r: Vec<String>)
    ensures
        sorted_texts_of(string_views(names@), string_views(r@)),
{
    broadcast use vstd::seq_lib::to_multiset_build, vstd::seq_lib::to_multiset_insert;

    let ghost s = string_views(names@);
    let mut r: Vec<String> = Vec::new();
    let mut i: usize = 0;
    proof {
        assert(string_views(r@) =~= s.subrange(0, 0));
    }
    while i < names.len()
        invariant
            i <= names@.len(),
            s == string_views(names@),
            texts_sorted(string_views(r@)),
            string_views(r@).to_multiset() == s.subrange(0, i as int).to_multiset(),
        decreases names@.len() - i,
    {
        let x = copy_text(&names[i]);
        let xc = str_chars(x.as_str());
        let ghost t = string_views(r@);
        let mut k: usize = 0;
        while k < r.len() && !text_less(&xc, &str_chars(r[k].as_str()))
            invariant
                k <= r@.len(),
                t == string_views(r@),
                xc@ == x@,
                forall|j: int| 0 <= j < k ==> !text_lt(x@, #[trigger] t[j]),
            decreases r@.len() - k,
        {
            k = k + 1;
        }
        proof {
            if k < t.len() {
                assert(text_lt(x@, t[k as int]));
            }
        }
        let ghost xv = x@;
        r.insert(k, x);
        proof {
            let u = string_views(r@);
            assert(u =~= t.insert(k as int, xv));
            assert forall|a: int, b: int| 0 <= a < b < u.len() implies !text_lt(#[trigger] u[b], #[trigger] u[a]) by {
                if b < k {
                    assert(u[a] == t[a] && u[b] == t[b]);
                } else if b == k {
                    assert(u[a] == t[a] && u[b] == xv);
                } else if a > k {
                    assert(u[a] == t[a - 1] && u[b] == t[b - 1]);
                } else if a == k {
                    assert(u[b] == t[b - 1] && u[a] == xv);
                    if text_lt(t[b - 1], xv) {
                        if b - 1 == k {
                            lemma_text_lt_asymmetric(xv, t[k as int]);
                        } else {
                            lemma_text_lt_transitive(t[b - 1], xv, t[k as int]);
                            assert(!text_lt(t[b - 1], t[k as int]));
                        }
                    }
                } else {
                    assert(u[a] == t[a] && u[b] == t[b - 1]);
                }
            }
            assert(s.subrange(0, i + 1) =~= s.subrange(0, i as int).push(s[i as int]));
            assert(s[i as int] == xv);
            vstd::seq_lib::to_multiset_insert(t, k as int, xv);
            vstd::seq_lib::to_multiset_build(s.subrange(0, i as int), xv);
        }
        i = i + 1;
    }
    proof {
        assert(s.subrange(0, s.len() as int) =~= s);
    }
    r
}

// ---------------------------------------------------------------------------
// The function list
// ---------------------------------------------------------------------------

/// The query that lists the functions of SQLite.
pub fn function_list_query() -> (r: &'static str)
    ensures
        r@ == "SELECT DISTINCT name FROM pragma_function_list()"@,
{
    "SELECT DISTINCT name FROM pragma_function_list()"
}

/// Writes `names`, sorted, as a JSON array of strings on a line of its
/// own.
pub fn write_function_list(names: &Vec<String>, writer: &mut Vec<u8>)
    ensures
        exists|t: Seq<Seq<char>>|
            sorted_texts_of(string_views(names@), t) && final(writer)@ == old(writer)@
                + vstd::utf8::encode_utf8(#[trigger] json_string_array_spec(t).push('\n')),
{
    let sorted = sort_texts(names);
    let json = json_string_array(&sorted);
    let mut chars = str_chars(json.as_str());
    chars.push('\n');
    let line = string_from_chars(&chars);
    let mut bytes = line.as_str().as_bytes_vec();
    writer.append(&mut bytes);
    proof {
        let t = string_views(sorted@);
        assert(sorted_texts_of(string_views(names@), t));
    }
}

/// Writes the names of the functions of the bundled SQLite (the rows of
/// [`function_list_query`]), sorted, as a JSON array of strings on a line
/// of its own (see [`write_function_list`]). `false`, with nothing
/// written, when SQLite reported an error.
pub fn run(writer: &mut Vec<u8>) -> (r: bool)
    ensures
        r ==> exists|names: Seq<Seq<char>>, t: Seq<Seq<char>>|
            sorted_texts_of(names, t) && final(writer)@ == old(writer)@ + vstd::utf8::encode_utf8(
                json_string_array_spec(t).push('\n'),
            ),
        !r ==> final(writer)@ == old(writer)@,
{
    let conn = match open_in_memory() {
        Some(c) => c,
        None => {
            return false;
        },
    };
    let names = match query_texts(&conn, function_list_query()) {
        Some(n) => n,
        None => {
            return false;
        },
    };
    write_function_list(&names, writer);
    true
}

} // verus!
