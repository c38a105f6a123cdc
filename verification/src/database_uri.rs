//! The URI under which a database file is opened read-only and immutable
//! (`file:<path>?immutable=1`), for reading a database that another
//! process holds under an exclusive lock.
use vstd::prelude::*;
use vstd::utf8::encode_utf8;
use crate::text::str_chars;
use crate::text::string_from_chars;
use crate::text::append_chars;
use crate::text::lit_chars;

verus! {

/// A byte that percent-encoding leaves as it is: an ASCII letter or digit.
pub open spec fn is_alphanumeric_byte(b: u8) -> bool {
    (0x30 <= b <= 0x39) || (0x41 <= b <= 0x5a) || (0x61 <= b <= 0x7a)
}

/// The upper-case hexadecimal digit of `n` (`0 <= n < 16`).
pub open spec fn hex_digit(n: int) -> char {
    if n < 10 {
        (0x30 + n) as char
    } else {
        (0x41 + n - 10) as char
    }
}

/// Percent-encoding of bytes in which only ASCII letters and digits stay:
/// every other byte becomes `%` and its two upper-case hexadecimal digits.
pub open spec fn percent_encoded(bytes: Seq<u8>) -> Seq<char>
    decreases bytes.len(),
{
    if bytes.len() == 0 {
        seq![]
    } else {
        let b = bytes[0];
        let head = if is_alphanumeric_byte(b) {
            seq![b as char]
        } else {
            seq!['%', hex_digit(b as int / 16), hex_digit(b as int % 16)]
        };
        head + percent_encoded(bytes.drop_first())
    }
}

/// A path as it stands in the URI: each `/` stays, every other character
/// is replaced by the percent-encoding of its UTF-8 bytes.
pub open spec fn uri_path(path: Seq<char>) -> Seq<char>
    decreases path.len(),
{
    if path.len() == 0 {
        seq![]
    } else {
        let head = if path[0] == '/' {
            seq!['/']
        } else {
            percent_encoded(encode_utf8(seq![path[0]]))
        };
        head + uri_path(path.drop_first())
    }
}

/// `file:` + the encoded path + `?immutable=1`.
pub open spec fn immutable_uri_spec(path: Seq<char>) -> Seq<char> {
    "file:"@ + uri_path(path) + "?immutable=1"@
}

/// The percent-encoding of one character's UTF-8 bytes, with
/// percent_encoding's `utf8_percent_encode` and the set `NON_ALPHANUMERIC`.
///
/// Trusted: the crate's source encodes every byte that is not an ASCII
/// letter or digit as `%` and two upper-case hexadecimal digits, and
/// keeps the others.
#[verifier::external_body]
fn percent_encode_char(c: char) -> (r: String)
    ensures
        r@ == percent_encoded(encode_utf8(seq![c])),
{
    let s = c.to_string();
    percent_encoding::utf8_percent_encode(&s, percent_encoding::NON_ALPHANUMERIC).to_string()
}

proof fn lemma_uri_path_push(path: Seq<char>, c: char)
    ensures
        uri_path(path.push(c)) == uri_path(path) + (if c == '/' {
            seq!['/']
        } else {
            percent_encoded(encode_utf8(seq![c]))
        }),
    decreases path.len(),
{
    if path.len() == 0 {
        assert(path.push(c).drop_first() =~= Seq::<char>::empty());
        assert(uri_path(Seq::<char>::empty()) =~= Seq::<char>::empty());
    } else {
        lemma_uri_path_push(path.drop_first(), c);
        assert(path.push(c).drop_first() =~= path.drop_first().push(c));
        assert(path.push(c)[0] == path[0]);
    }
}

/// The URI that opens `database_filepath` read-only and immutable:
/// `file:` + the path, percent-encoded but for its `/` and its ASCII
/// letters and digits, + `?immutable=1`.
pub fn immutable_uri(database_filepath: &str) -> (r: String)
    ensures
        r@ == immutable_uri_spec(database_filepath@),
{
    let path = str_chars(database_filepath);
    let mut out: Vec<char> = lit_chars("file:");
    let mut encoded: Vec<char> = Vec::new();
    let mut i: usize = 0;
    proof {
        assert(path@.subrange(0, 0) =~= Seq::<char>::empty());
    }
    while i < path.len()
        invariant
            i <= path@.len(),
            encoded@ == uri_path(path@.subrange(0, i as int)),
        decreases path.len() - i,
    {
        let c = path[i];
        proof {
            lemma_uri_path_push(path@.subrange(0, i as int), c);
            assert(path@.subrange(0, i as int + 1) =~= path@.subrange(0, i as int).push(c));
        }
        if c == '/' {
            encoded.push('/');
        } else {
            let piece_text = percent_encode_char(c);
            let piece = str_chars(piece_text.as_str());
            append_chars(&mut encoded, &piece);
        }
        i = i + 1;
    }
    proof {
        assert(path@.subrange(0, path@.len() as int) =~= path@);
    }
    append_chars(&mut out, &encoded);
    let tail = lit_chars("?immutable=1");
    append_chars(&mut out, &tail);
    string_from_chars(&out)
}

} // verus!
