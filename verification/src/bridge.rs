//! Calls into the outside crates (sqlparser's tokenizer, regex) and into std
//! functions that vstd does not specify. Every item here is trusted: its
//! contract is believed, not proved.
use vstd::prelude::*;

use sqlparser::dialect::SQLiteDialect;
use sqlparser::tokenizer::Token;
use sqlparser::tokenizer::Tokenizer;

use self::RawTokenKind as K;
use crate::tokenize::raw_tokens_placed;

verus! {

/// A token as sqlparser's tokenizer produced it, with its one-based start.
#[derive(Clone, Debug, PartialEq, Eq)]
pub struct RawToken {
    pub kind: RawTokenKind,
    /// One-based line of the first character.
    pub line: u64,
    /// One-based column (in characters) of the first character.
    pub column: u64,
}

/// The kind and text of a token of sqlparser.
#[derive(Clone, Debug, PartialEq, Eq)]
pub enum RawTokenKind {
    /// A keyword or identifier, and its quote character if it was quoted.
    Word(String, Option<char>),
    /// A number, and whether it had the `L` suffix.
    Number(String, bool),
    /// A character that could not be tokenized.
    Char(char),
    SingleQuotedString(String),
    DoubleQuotedString(String),
    HexStringLiteral(String),
    Placeholder(String),
    /// A space, tab, newline or comment, as written.
    Whitespace(String),
    /// Any other token, as sqlparser writes it back (`"=="`, `","`, ...).
    Symbol(String),
}

/// The error of sqlparser's tokenizer, with its one-based location.
#[derive(Clone, Debug, PartialEq, Eq)]
pub struct RawTokenizerError {
    pub message: String,
    pub line: u64,
    pub column: u64,
}

/// [`RawTokenKind`] with its strings seen as character sequences.
pub enum RawTokenKindView {
    Word(Seq<char>, Option<char>),
    Number(Seq<char>, bool),
    Char(char),
    SingleQuotedString(Seq<char>),
    DoubleQuotedString(Seq<char>),
    HexStringLiteral(Seq<char>),
    Placeholder(Seq<char>),
    Whitespace(Seq<char>),
    Symbol(Seq<char>),
}

/// [`RawToken`] with its strings seen as character sequences.
pub struct RawTokenView {
    pub kind: RawTokenKindView,
    pub line: u64,
    pub column: u64,
}

/// [`RawTokenizerError`] with its message seen as a character sequence.
pub struct RawTokenizerErrorView {
    pub message: Seq<char>,
    pub line: u64,
    pub column: u64,
}

impl View for RawTokenKind {
    type V = RawTokenKindView;

    open spec fn view(&self) -> RawTokenKindView {
        match self {
            RawTokenKind::Word(s, q) => RawTokenKindView::Word(s@, *q),
            RawTokenKind::Number(s, l) => RawTokenKindView::Number(s@, *l),
            RawTokenKind::Char(c) => RawTokenKindView::Char(*c),
            RawTokenKind::SingleQuotedString(s) => RawTokenKindView::SingleQuotedString(s@),
            RawTokenKind::DoubleQuotedString(s) => RawTokenKindView::DoubleQuotedString(s@),
            RawTokenKind::HexStringLiteral(s) => RawTokenKindView::HexStringLiteral(s@),
            RawTokenKind::Placeholder(s) => RawTokenKindView::Placeholder(s@),
            RawTokenKind::Whitespace(s) => RawTokenKindView::Whitespace(s@),
            RawTokenKind::Symbol(s) => RawTokenKindView::Symbol(s@),
        }
    }
}

impl View for RawToken {
    type V = RawTokenView;

    open spec fn view(&self) -> RawTokenView {
        RawTokenView { kind: self.kind@, line: self.line, column: self.column }
    }
}

impl View for RawTokenizerError {
    type V = RawTokenizerErrorView;

    open spec fn view(&self) -> RawTokenizerErrorView {
        RawTokenizerErrorView { message: self.message@, line: self.line, column: self.column }
    }
}

/// The views of a sequence of raw tokens.
pub open spec fn raw_views(v: Seq<RawToken>) -> Seq<RawTokenView> {
    v.map_values(|t: RawToken| t@)
}

/// What sqlparser's tokenizer, with the SQLite dialect, makes of `sql`.
pub uninterp spec fn sqlparser_tokens(sql: Seq<char>) -> Result<
    Seq<RawTokenView>,
    RawTokenizerErrorView,
>;

#[verifier::external_type_specification]
#[verifier::external_body]
pub struct ExToken(Token);

/// The kind and text of one token of sqlparser.
///
/// Trusted: carries the token over one for one (words, numbers,
/// characters, strings and placeholders with their fields; whitespace and
/// all other tokens by the text that sqlparser's `Display` writes for
/// them); nothing is claimed beyond that.
#[verifier::external_body]
fn raw_kind(t: Token) -> (r: RawTokenKind) {
    match t {
        Token::Word(w) => K::Word(w.value, w.quote_style),
        Token::Number(s, l) => K::Number(s, l),
        Token::Char(c) => K::Char(c),
        Token::SingleQuotedString(s) => K::SingleQuotedString(s),
        Token::DoubleQuotedString(s) => K::DoubleQuotedString(s),
        Token::HexStringLiteral(s) => K::HexStringLiteral(s),
        Token::Placeholder(s) => K::Placeholder(s),
        Token::Whitespace(w) => K::Whitespace(w.to_string()),
        other => K::Symbol(other.to_string()),
    }
}

/// Tokenizes `sql` with sqlparser's `Tokenizer::tokenize_with_location`
/// (SQLite dialect).
///
/// Trusted: the contract claims that the result is the named function
/// `sqlparser_tokens` of the input, that is, that the same text always gives
/// the same tokens, each with its one-based location (see [`raw_kind`]);
/// and, of the tokens, what sqlparser's source shows of where it places
/// them ([`raw_tokens_placed`]): `tokenize_with_location` pushes only what
/// `next_token` returns, which never makes `Token::EOF`, and takes each
/// location from its position before the token, which starts at 1:1,
/// only moves forward (`State::next` counts a line at each `'\n'` and a
/// column at every other character), and stands on the character that the
/// token begins at; and `next_token` returns a token (or an error) whenever
/// a character is left, so a text that is not empty has a token. As each
/// token begins at a character, its location lies on an existing line and
/// at most one past the line's last character: a `\r` that the lines drop
/// before a `\n` is never the end of a token followed by one that begins
/// at that `\n` (the `\r` branch of `next_token` takes the `\n` with it, a
/// line comment runs through its `\n`, and every other token ends with a
/// character other than `\r`). `Token::Period` is made only in the branch
/// for `.` when no digit follows, so it begins at a `.`. `next_token`
/// consumes at least one character for each token, so the locations move
/// forward; only a token that begins at the line break ending the text
/// (the `\n` branch, or the `\r` branch, both `Whitespace::Newline`) can
/// stand at the end of the text. An empty text gives no token and no error.
#[verifier::external_body]
pub(crate) fn sqlparser_tokenize(sql: &str) -> (r: Result<Vec<RawToken>, RawTokenizerError>)
    ensures
        r matches Ok(v) ==> raw_tokens_placed(sql@, raw_views(v@)),
        r is Err ==> sql@.len() > 0,
        match r {
            Ok(v) => sqlparser_tokens(sql@) == Ok::<Seq<RawTokenView>, RawTokenizerErrorView>(
                raw_views(v@),
            ),
            Err(e) => sqlparser_tokens(sql@) == Err::<Seq<RawTokenView>, RawTokenizerErrorView>(
                e@,
            ),
        },
{
    match Tokenizer::new(&SQLiteDialect {}, sql).tokenize_with_location() {
        Ok(ts) => Ok(ts.into_iter().map(|t| RawToken { line: t.location.line, column: t.location.column, kind: raw_kind(t.token) }).collect()),
        Err(e) => Err(RawTokenizerError { message: e.message, line: e.location.line, column: e.location.column }),
    }
}

/// Whether `text` matches the regular expression `pattern`; `None` when
/// `pattern` is not a valid regular expression.
pub uninterp spec fn regex_matches(pattern: Seq<char>, text: Seq<char>) -> Option<bool>;

/// Compiles `pattern` with `regex::Regex::new` and tests `text` with
/// `Regex::is_match`.
///
/// Trusted: the contract claims only that the result is the named function
/// `regex_matches` of the pattern and the text.
#[verifier::external_body]
pub(crate) fn regex_is_match(pattern: &str, text: &str) -> (r: Option<bool>)
    ensures
        r == regex_matches(pattern@, text@),
{
    match regex::Regex::new(pattern) {
        Ok(re) => Some(re.is_match(text)),
        Err(_) => None,
    }
}

/// The Unicode upper-case mapping of `s`, as std's `str::to_uppercase` gives it.
pub uninterp spec fn unicode_uppercase(s: Seq<char>) -> Seq<char>;

/// Calls std's `str::to_uppercase`.
///
/// Trusted: the contract claims only that the result is the named function
/// `unicode_uppercase` of the input.
#[verifier::external_body]
pub(crate) fn str_to_uppercase(s: &str) -> (r: String)
    ensures
        r@ == unicode_uppercase(s@),
{
    s.to_uppercase()
}

/// The Unicode lower-case mapping of `s`, as std's `str::to_lowercase` gives it.
pub uninterp spec fn unicode_lowercase(s: Seq<char>) -> Seq<char>;

/// Calls std's `str::to_lowercase`.
///
/// Trusted: the contract claims only that the result is the named function
/// `unicode_lowercase` of the input.
#[verifier::external_body]
pub(crate) fn str_to_lowercase(s: &str) -> (r: String)
    ensures
        r@ == unicode_lowercase(s@),
{
    s.to_lowercase()
}

/// The text that std's `Debug` for `str` writes for `s`: the string in
/// double quotes, with quotes, backslashes and control characters escaped.
pub uninterp spec fn str_debug_text(s: Seq<char>) -> Seq<char>;

/// Formats `s` with std's `Debug` for `str` (`format!("{:?}", s)`).
///
/// Trusted: the contract claims only that the result is the named function
/// `str_debug_text` of the input.
#[verifier::external_body]
pub(crate) fn str_debug(s: &str) -> (r: String)
    ensures
        r@ == str_debug_text(s@),
{
    format!("{:?}", s)
}

/// std's `String::len`.
///
/// Trusted: the result is the number of bytes of the string in UTF-8, as
/// std documents.
pub assume_specification[ std::string::String::len ](s: &String) -> (r: usize)
    ensures
        r == vstd::utf8::encode_utf8(s@).len(),
;

} // verus!
