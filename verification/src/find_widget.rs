//! The comparisons behind the find widget: whether a cell's text matches
//! what the user searches for, as a whole word or anywhere, with or
//! without case, literally or as a regular expression.
use vstd::prelude::*;

use crate::bridge::{regex_is_match, regex_matches, str_to_lowercase, unicode_lowercase};
use crate::text::{append_chars, chars_eq, str_chars, string_from_chars};

verus! {

/// `needle` occurs in `hay` at index `i`.
pub open spec fn occurs_at(hay: Seq<char>, needle: Seq<char>, i: int) -> bool {
    0 <= i && i + needle.len() <= hay.len() && hay.subrange(i, i + needle.len()) == needle
}

/// `needle` occurs somewhere in `hay` (the empty text occurs everywhere).
pub open spec fn contains_text(hay: Seq<char>, needle: Seq<char>) -> bool {
    exists|i: int| #[trigger] occurs_at(hay, needle, i)
}

/// The regular expression that the find widget builds from a pattern:
/// `(?i)` when case does not matter, `(?s)` always, and the pattern as a
/// whole word (`\b(?:...)\b`) or as it is.
pub open spec fn find_widget_regex(pattern: Seq<char>, whole_word: bool, case_sensitive: bool) -> Seq<char> {
    (if case_sensitive {
        seq![]
    } else {
        seq!['(', '?', 'i', ')']
    }) + seq!['(', '?', 's', ')'] + if whole_word {
        seq!['\\', 'b', '(', '?', ':'] + pattern + seq![')', '\\', 'b']
    } else {
        pattern
    }
}

/// Whether a cell whose text is `input` matches what is searched for:
/// the same text (whole word), or text that occurs in it, compared
/// as is or both lower-cased; or, for a regular expression, whether it
/// matches (never for an invalid one, nor for an empty whole-word pattern).
pub open spec fn find_widget_spec(
    input: Seq<char>,
    needle: Seq<char>,
    whole_word: bool,
    case_sensitive: bool,
    regex: bool,
) -> bool {
    if regex {
        if whole_word && needle.len() == 0 {
            false
        } else {
            regex_matches(find_widget_regex(needle, whole_word, case_sensitive), input) == Some(true)
        }
    } else {
        let a = if case_sensitive {
            input
        } else {
            unicode_lowercase(input)
        };
        let b = if case_sensitive {
            needle
        } else {
            unicode_lowercase(needle)
        };
        if whole_word {
            a == b
        } else {
            contains_text(a, b)
        }
    }
}

/// Whether `needle` occurs in `hay`.
pub fn chars_contain(hay: &[char], needle: &[char]) -> (r: bool)
    ensures
        r == contains_text(hay@, needle@),
{
    if needle.len() > hay.len() {
        proof {
            assert forall|i: int| !occurs_at(hay@, needle@, i) by {}
        }
        return false;
    }
    let n = hay.len();
    let last = n - needle.len();
    let mut i: usize = 0;
    loop
        invariant
            needle@.len() <= hay@.len(),
            hay@.len() == n,
            last == hay@.len() - needle@.len(),
            i <= last,
            forall|k: int| 0 <= k < i ==> !occurs_at(hay@, needle@, k),
        ensures
            forall|k: int| 0 <= k <= last ==> !occurs_at(hay@, needle@, k),
        decreases last - i,
    {
        let mut j: usize = 0;
        let mut same = true;
        while j < needle.len()
            invariant
                i + needle@.len() <= hay@.len(),
                hay@.len() <= usize::MAX,
                j <= needle@.len(),
                same <==> hay@.subrange(i as int, i + j) =~= needle@.subrange(0, j as int),
            decreases needle@.len() - j,
        {
            let ghost hs = hay@.subrange(i as int, i + j + 1);
            let ghost ns = needle@.subrange(0, j + 1);
            proof {
                assert(hs.drop_last() =~= hay@.subrange(i as int, i + j));
                assert(ns.drop_last() =~= needle@.subrange(0, j as int));
                assert(hs.last() == hay@[i + j]);
                assert(ns.last() == needle@[j as int]);
                assert(hs =~= hay@.subrange(i as int, i + j).push(hay@[i + j]));
                assert(ns =~= needle@.subrange(0, j as int).push(needle@[j as int]));
            }
            if hay[i + j] != needle[j] {
                same = false;
            }
            j = j + 1;
        }
        proof {
            assert(needle@.subrange(0, needle@.len() as int) =~= needle@);
        }
        if same {
            proof {
                assert(occurs_at(hay@, needle@, i as int));
            }
            return true;
        }
        proof {
            assert(!occurs_at(hay@, needle@, i as int));
        }
        if i == last {
            break;
        }
        i = i + 1;
    }
    proof {
        assert forall|k: int| !occurs_at(hay@, needle@, k) by {
            if 0 <= k && k + needle@.len() <= hay@.len() {
                assert(k <= last);
            }
        }
    }
    false
}

/// The regular expression built from `pattern` (see [`find_widget_regex`]).
fn regex_text(pattern: &str, whole_word: bool, case_sensitive: bool) -> (r: String)
    ensures
        r@ == find_widget_regex(pattern@, whole_word, case_sensitive),
{
    let mut out: Vec<char> = Vec::new();
    if !case_sensitive {
        out.push('(');
        out.push('?');
        out.push('i');
        out.push(')');
    }
    out.push('(');
    out.push('?');
    out.push('s');
    out.push(')');
    let p = str_chars(pattern);
    if whole_word {
        let open: Vec<char> = vec!['\\', 'b', '(', '?', ':'];
        let close: Vec<char> = vec![')', '\\', 'b'];
        append_chars(&mut out, &open);
        append_chars(&mut out, &p);
        append_chars(&mut out, &close);
    } else {
        append_chars(&mut out, &p);
    }
    proof {
        assert(out@ =~= find_widget_regex(pattern@, whole_word, case_sensitive));
    }
    string_from_chars(&out)
}

/// Whether a cell whose text is `input` matches `needle` in the find
/// widget (see [`find_widget_spec`]).
pub fn find_widget_compare(input: &str, needle: &str, whole_word: bool, case_sensitive: bool, regex: bool) -> (r:
    bool)
    ensures
        r == find_widget_spec(input@, needle@, whole_word, case_sensitive, regex),
{
    if regex {
        if whole_word && needle.unicode_len() == 0 {
            return false;
        }
        let re = regex_text(needle, whole_word, case_sensitive);
        match regex_is_match(re.as_str(), input) {
            Some(b) => b,
            None => false,
        }
    } else {
        let (a, b) = if case_sensitive {
            (str_chars(input), str_chars(needle))
        } else {
            (str_chars(str_to_lowercase(input).as_str()), str_chars(str_to_lowercase(needle).as_str()))
        };
        if whole_word {
            chars_eq(&a, &b)
        } else {
            chars_contain(&a, &b)
        }
    }
}

} // verus!
