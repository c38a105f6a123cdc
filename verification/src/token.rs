//! The tokens of SQLite3 SQL, and the tables of its keywords.
use vstd::prelude::*;

use crate::text::{chars_eq, str_chars};

verus! {

/// A token of SQLite3 SQL.
#[derive(Clone, Debug, Eq, PartialEq)]
pub enum SQLite3Token {
    NumericLiteral(String),
    StringLiteral(String),
    BlobLiteral(String),
    Keyword(SQLite3Keyword),
    Identifier(String, Option<SQLite3KeywordLikeIdentifier>),
    Placeholder(String, SQLite3PlaceholderKind),
    Operator(SQLite3Operator),
    Comma,
    LParen,
    RParen,
    Period,
    SemiColon,
    /// The flag tells whether the whitespace is a comment.
    Whitespace(bool),
    /// Tokens that do not exist in SQLite.
    InvalidNumericLiteral,
    InvalidStringLiteral,
    InvalidOperator,
    InvalidToken,
}

/// [`SQLite3Token`] with its strings seen as character sequences.
pub enum SQLite3TokenView {
    NumericLiteral(Seq<char>),
    StringLiteral(Seq<char>),
    BlobLiteral(Seq<char>),
    Keyword(SQLite3Keyword),
    Identifier(Seq<char>, Option<SQLite3KeywordLikeIdentifier>),
    Placeholder(Seq<char>, SQLite3PlaceholderKind),
    Operator(SQLite3Operator),
    Comma,
    LParen,
    RParen,
    Period,
    SemiColon,
    Whitespace(bool),
    InvalidNumericLiteral,
    InvalidStringLiteral,
    InvalidOperator,
    InvalidToken,
}

impl View for SQLite3Token {
    type V = SQLite3TokenView;

    open spec fn view(&self) -> SQLite3TokenView {
        match self {
            SQLite3Token::NumericLiteral(s) => SQLite3TokenView::NumericLiteral(s@),
            SQLite3Token::StringLiteral(s) => SQLite3TokenView::StringLiteral(s@),
            SQLite3Token::BlobLiteral(s) => SQLite3TokenView::BlobLiteral(s@),
            SQLite3Token::Keyword(k) => SQLite3TokenView::Keyword(*k),
            SQLite3Token::Identifier(s, k) => SQLite3TokenView::Identifier(s@, *k),
            SQLite3Token::Placeholder(s, k) => SQLite3TokenView::Placeholder(s@, *k),
            SQLite3Token::Operator(o) => SQLite3TokenView::Operator(*o),
            SQLite3Token::Comma => SQLite3TokenView::Comma,
            SQLite3Token::LParen => SQLite3TokenView::LParen,
            SQLite3Token::RParen => SQLite3TokenView::RParen,
            SQLite3Token::Period => SQLite3TokenView::Period,
            SQLite3Token::SemiColon => SQLite3TokenView::SemiColon,
            SQLite3Token::Whitespace(b) => SQLite3TokenView::Whitespace(*b),
            SQLite3Token::InvalidNumericLiteral => SQLite3TokenView::InvalidNumericLiteral,
            SQLite3Token::InvalidStringLiteral => SQLite3TokenView::InvalidStringLiteral,
            SQLite3Token::InvalidOperator => SQLite3TokenView::InvalidOperator,
            SQLite3Token::InvalidToken => SQLite3TokenView::InvalidToken,
        }
    }
}

impl SQLite3Token {
    /// A copy of this token.
    pub fn duplicate(&self) -> (r: Self)
        ensures
            r@ == self@,
    {
        match self {
            SQLite3Token::NumericLiteral(s) => SQLite3Token::NumericLiteral(s.clone()),
            SQLite3Token::StringLiteral(s) => SQLite3Token::StringLiteral(s.clone()),
            SQLite3Token::BlobLiteral(s) => SQLite3Token::BlobLiteral(s.clone()),
            SQLite3Token::Keyword(k) => SQLite3Token::Keyword(*k),
            SQLite3Token::Identifier(s, k) => SQLite3Token::Identifier(s.clone(), *k),
            SQLite3Token::Placeholder(s, k) => SQLite3Token::Placeholder(s.clone(), *k),
            SQLite3Token::Operator(o) => SQLite3Token::Operator(*o),
            SQLite3Token::Comma => SQLite3Token::Comma,
            SQLite3Token::LParen => SQLite3Token::LParen,
            SQLite3Token::RParen => SQLite3Token::RParen,
            SQLite3Token::Period => SQLite3Token::Period,
            SQLite3Token::SemiColon => SQLite3Token::SemiColon,
            SQLite3Token::Whitespace(b) => SQLite3Token::Whitespace(*b),
            SQLite3Token::InvalidNumericLiteral => SQLite3Token::InvalidNumericLiteral,
            SQLite3Token::InvalidStringLiteral => SQLite3Token::InvalidStringLiteral,
            SQLite3Token::InvalidOperator => SQLite3Token::InvalidOperator,
            SQLite3Token::InvalidToken => SQLite3Token::InvalidToken,
        }
    }


    pub fn is_whitespace(&self) -> (r: bool)
        ensures
            r == (self is Whitespace),
            r == (self@ is Whitespace),
    {
        matches!(self, Self::Whitespace(_))
    }
}

/// The kinds of parameter placeholders.
#[derive(Clone, Copy, Debug, Eq, PartialEq, Structural)]
pub enum SQLite3PlaceholderKind {
    /// `?`
    Question,
    /// `?NNN`
    QuestionNumber,
    /// `:VVV`
    ColonName,
    /// `@VVV`
    AtName,
    /// `$VVV`
    DollarName,
}

/// The operators of SQLite3.
#[derive(Clone, Copy, Debug, Eq, PartialEq, Structural)]
pub enum SQLite3Operator {
    DoubleEq,
    Eq,
    Neq,
    Lt,
    Gt,
    LtEq,
    GtEq,
    Plus,
    Minus,
    Mul,
    Div,
    Mod,
    StringConcat,
    Ampersand,
    Pipe,
    Tilde,
    ShiftLeft,
    ShiftRight,
    Arrow,
    LongArrow,
}

/// The error of `from_str` on the keyword tables: no variant has that spelling.
#[derive(Clone, Copy, Debug, Eq, PartialEq, Structural)]
pub enum ParseError {
    VariantNotFound,
}

/// Names that can be both identifiers and keywords when unquoted.
///
/// In SQLite3 both `CREATE TABLE TRUE(x);` and `SELECT TRUE;` are valid
/// statements; these names are classified here.
#[allow(non_camel_case_types)]
#[derive(Clone, Copy, Debug, PartialEq, Eq, Hash, Structural)]
pub enum SQLite3KeywordLikeIdentifier {
    TRUE,
    FALSE,
    NEW,
    OLD,
    BLOB,
    INTEGER,
    REAL,
    TEXT,
    ROWID,
    EACH,
    END,
    STORED,
    STRICT,
}

/// The keywords of SQLite3.
#[allow(non_camel_case_types)]
#[derive(Clone, Copy, Debug, PartialEq, Eq, Hash, Structural)]
pub enum SQLite3Keyword {
    ABORT,
    ACTION,
    ADD,
    AFTER,
    ALL,
    ALTER,
    ALWAYS,
    ANALYZE,
    AND,
    AS,
    ASC,
    ATTACH,
    AUTOINCREMENT,
    BEFORE,
    BEGIN,
    BETWEEN,
    BY,
    CASCADE,
    CASE,
    CAST,
    CHECK,
    COLLATE,
    COLUMN,
    COMMIT,
    CONFLICT,
    CONSTRAINT,
    CREATE,
    CROSS,
    CURRENT,
    CURRENT_DATE,
    CURRENT_TIME,
    CURRENT_TIMESTAMP,
    DATABASE,
    DEFAULT,
    DEFERRED,
    DEFERRABLE,
    DELETE,
    DESC,
    DETACH,
    DISTINCT,
    DO,
    DROP,
    END,
    EACH,
    ELSE,
    ESCAPE,
    EXCEPT,
    EXCLUSIVE,
    EXCLUDE,
    EXISTS,
    EXPLAIN,
    FAIL,
    FILTER,
    FIRST,
    FOLLOWING,
    FOR,
    FOREIGN,
    FROM,
    FULL,
    GENERATED,
    GLOB,
    GROUP,
    GROUPS,
    HAVING,
    IF,
    IGNORE,
    IMMEDIATE,
    IN,
    INDEX,
    INDEXED,
    INITIALLY,
    INNER,
    INSERT,
    INSTEAD,
    INTERSECT,
    INTO,
    IS,
    ISNULL,
    JOIN,
    KEY,
    LAST,
    LEFT,
    LIKE,
    LIMIT,
    MATCH,
    MATERIALIZED,
    NATURAL,
    NO,
    NOT,
    NOTHING,
    NOTNULL,
    NULL,
    NULLS,
    OF,
    OFFSET,
    ON,
    OR,
    ORDER,
    OTHERS,
    OUTER,
    OVER,
    PARTITION,
    PLAN,
    PRAGMA,
    PRECEDING,
    PRIMARY,
    QUERY,
    RAISE,
    RANGE,
    RECURSIVE,
    REFERENCES,
    REGEXP,
    REINDEX,
    RELEASE,
    RENAME,
    REPLACE,
    RESTRICT,
    RETURNING,
    RIGHT,
    ROLLBACK,
    ROW,
    ROWS,
    SAVEPOINT,
    SELECT,
    SET,
    TABLE,
    TEMP,
    TEMPORARY,
    THEN,
    TIES,
    TO,
    TRANSACTION,
    TRIGGER,
    UNBOUNDED,
    UNION,
    UNIQUE,
    UPDATE,
    USING,
    VACUUM,
    VALUES,
    VIEW,
    VIRTUAL,
    WHEN,
    WHERE,
    WINDOW,
    WITH,
    WITHIN,
    WITHOUT,
}

/// The spelling of each [`SQLite3KeywordLikeIdentifier`], as written in SQL.
pub open spec fn keyword_like_name(k: SQLite3KeywordLikeIdentifier) -> Seq<char> {
    match k {
        SQLite3KeywordLikeIdentifier::TRUE => "TRUE"@,
        SQLite3KeywordLikeIdentifier::FALSE => "FALSE"@,
        SQLite3KeywordLikeIdentifier::NEW => "NEW"@,
        SQLite3KeywordLikeIdentifier::OLD => "OLD"@,
        SQLite3KeywordLikeIdentifier::BLOB => "BLOB"@,
        SQLite3KeywordLikeIdentifier::INTEGER => "INTEGER"@,
        SQLite3KeywordLikeIdentifier::REAL => "REAL"@,
        SQLite3KeywordLikeIdentifier::TEXT => "TEXT"@,
        SQLite3KeywordLikeIdentifier::ROWID => "ROWID"@,
        SQLite3KeywordLikeIdentifier::EACH => "EACH"@,
        SQLite3KeywordLikeIdentifier::END => "END"@,
        SQLite3KeywordLikeIdentifier::STORED => "STORED"@,
        SQLite3KeywordLikeIdentifier::STRICT => "STRICT"@,
    }
}

/// Position of each [`SQLite3KeywordLikeIdentifier`] in declaration order.
pub open spec fn keyword_like_index(k: SQLite3KeywordLikeIdentifier) -> int {
    match k {
        SQLite3KeywordLikeIdentifier::TRUE => 0,
        SQLite3KeywordLikeIdentifier::FALSE => 1,
        SQLite3KeywordLikeIdentifier::NEW => 2,
        SQLite3KeywordLikeIdentifier::OLD => 3,
        SQLite3KeywordLikeIdentifier::BLOB => 4,
        SQLite3KeywordLikeIdentifier::INTEGER => 5,
        SQLite3KeywordLikeIdentifier::REAL => 6,
        SQLite3KeywordLikeIdentifier::TEXT => 7,
        SQLite3KeywordLikeIdentifier::ROWID => 8,
        SQLite3KeywordLikeIdentifier::EACH => 9,
        SQLite3KeywordLikeIdentifier::END => 10,
        SQLite3KeywordLikeIdentifier::STORED => 11,
        SQLite3KeywordLikeIdentifier::STRICT => 12,
    }
}

/// The [`SQLite3KeywordLikeIdentifier`] declared at position `i`.
pub open spec fn keyword_like_at(i: int) -> Option<SQLite3KeywordLikeIdentifier> {
    if i == 0 {
        Some(SQLite3KeywordLikeIdentifier::TRUE)
    } else if i == 1 {
        Some(SQLite3KeywordLikeIdentifier::FALSE)
    } else if i == 2 {
        Some(SQLite3KeywordLikeIdentifier::NEW)
    } else if i == 3 {
        Some(SQLite3KeywordLikeIdentifier::OLD)
    } else if i == 4 {
        Some(SQLite3KeywordLikeIdentifier::BLOB)
    } else if i == 5 {
        Some(SQLite3KeywordLikeIdentifier::INTEGER)
    } else if i == 6 {
        Some(SQLite3KeywordLikeIdentifier::REAL)
    } else if i == 7 {
        Some(SQLite3KeywordLikeIdentifier::TEXT)
    } else if i == 8 {
        Some(SQLite3KeywordLikeIdentifier::ROWID)
    } else if i == 9 {
        Some(SQLite3KeywordLikeIdentifier::EACH)
    } else if i == 10 {
        Some(SQLite3KeywordLikeIdentifier::END)
    } else if i == 11 {
        Some(SQLite3KeywordLikeIdentifier::STORED)
    } else if i == 12 {
        Some(SQLite3KeywordLikeIdentifier::STRICT)
    } else {
        None
    }
}

/// The number of [`SQLite3KeywordLikeIdentifier`] variants.
pub const KEYWORD_LIKE_COUNT: usize = 13;

/// The first variant, from position `i` on, spelled `s`.
pub open spec fn keyword_like_lookup(s: Seq<char>, i: int) -> Option<SQLite3KeywordLikeIdentifier>
    decreases KEYWORD_LIKE_COUNT - i,
{
    if i < 0 || i >= KEYWORD_LIKE_COUNT {
        None
    } else if keyword_like_name(keyword_like_at(i).unwrap()) == s {
        keyword_like_at(i)
    } else {
        keyword_like_lookup(s, i + 1)
    }
}

pub proof fn lemma_keyword_like_index(k: SQLite3KeywordLikeIdentifier)
    ensures
        0 <= keyword_like_index(k) < KEYWORD_LIKE_COUNT,
        keyword_like_at(keyword_like_index(k)) == Some(k),
{
}

pub proof fn lemma_keyword_like_at(i: int)
    ensures
        0 <= i < KEYWORD_LIKE_COUNT <==> keyword_like_at(i) is Some,
{
}

impl SQLite3KeywordLikeIdentifier {
    /// The spelling of this variant, as written in SQL.
    pub fn as_ref(&self) -> (r: &'static str)
        ensures
            r@ == keyword_like_name(*self),
    {
        match self {
            SQLite3KeywordLikeIdentifier::TRUE => "TRUE",
            SQLite3KeywordLikeIdentifier::FALSE => "FALSE",
            SQLite3KeywordLikeIdentifier::NEW => "NEW",
            SQLite3KeywordLikeIdentifier::OLD => "OLD",
            SQLite3KeywordLikeIdentifier::BLOB => "BLOB",
            SQLite3KeywordLikeIdentifier::INTEGER => "INTEGER",
            SQLite3KeywordLikeIdentifier::REAL => "REAL",
            SQLite3KeywordLikeIdentifier::TEXT => "TEXT",
            SQLite3KeywordLikeIdentifier::ROWID => "ROWID",
            SQLite3KeywordLikeIdentifier::EACH => "EACH",
            SQLite3KeywordLikeIdentifier::END => "END",
            SQLite3KeywordLikeIdentifier::STORED => "STORED",
            SQLite3KeywordLikeIdentifier::STRICT => "STRICT",
        }
    }

    /// The variant declared at position `i`, if any.
    pub fn from_index(i: usize) -> (r: Option<Self>)
        ensures
            r == keyword_like_at(i as int),
    {
        match i {
            0 => Some(SQLite3KeywordLikeIdentifier::TRUE),
            1 => Some(SQLite3KeywordLikeIdentifier::FALSE),
            2 => Some(SQLite3KeywordLikeIdentifier::NEW),
            3 => Some(SQLite3KeywordLikeIdentifier::OLD),
            4 => Some(SQLite3KeywordLikeIdentifier::BLOB),
            5 => Some(SQLite3KeywordLikeIdentifier::INTEGER),
            6 => Some(SQLite3KeywordLikeIdentifier::REAL),
            7 => Some(SQLite3KeywordLikeIdentifier::TEXT),
            8 => Some(SQLite3KeywordLikeIdentifier::ROWID),
            9 => Some(SQLite3KeywordLikeIdentifier::EACH),
            10 => Some(SQLite3KeywordLikeIdentifier::END),
            11 => Some(SQLite3KeywordLikeIdentifier::STORED),
            12 => Some(SQLite3KeywordLikeIdentifier::STRICT),
            _ => None,
        }
    }

    /// Every variant, in declaration order.
    pub fn all() -> (r: Vec<Self>)
        ensures
            r@.len() == KEYWORD_LIKE_COUNT,
            forall|i: int| 0 <= i < r@.len() ==> Some(#[trigger] r@[i]) == keyword_like_at(i),
    {
        let mut r: Vec<Self> = Vec::new();
        let mut i: usize = 0;
        while i < KEYWORD_LIKE_COUNT
            invariant
                i <= KEYWORD_LIKE_COUNT,
                r@.len() == i,
                forall|j: int| 0 <= j < i ==> Some(#[trigger] r@[j]) == keyword_like_at(j),
            decreases KEYWORD_LIKE_COUNT - i,
        {
            proof { lemma_keyword_like_at(i as int); }
            let k = Self::from_index(i).unwrap();
            r.push(k);
            i = i + 1;
        }
        r
    }

    /// The variant spelled exactly `s` (case-sensitive).
    pub fn from_str(s: &str) -> (r: Result<Self, ParseError>)
        ensures
            match r {
                Ok(k) => keyword_like_name(k) == s@ && keyword_like_lookup(s@, 0) == Some(k),
                Err(_) => (forall|k: SQLite3KeywordLikeIdentifier| keyword_like_name(k) != s@) && keyword_like_lookup(s@, 0) is None,
            },
    {
        let target = str_chars(s);
        let mut i: usize = 0;
        while i < KEYWORD_LIKE_COUNT
            invariant
                i <= KEYWORD_LIKE_COUNT,
                target@ == s@,
                keyword_like_lookup(s@, 0) == keyword_like_lookup(s@, i as int),
                forall|j: int| 0 <= j < i ==> keyword_like_name(#[trigger] keyword_like_at(j).unwrap()) != s@,
            decreases KEYWORD_LIKE_COUNT - i,
        {
            proof { lemma_keyword_like_at(i as int); }
            let k = Self::from_index(i).unwrap();
            let name = str_chars(k.as_ref());
            if chars_eq(&name, &target) {
                return Ok(k);
            }
            i = i + 1;
        }
        proof {
            assert(keyword_like_lookup(s@, i as int) is None);
            assert forall|k: SQLite3KeywordLikeIdentifier| keyword_like_name(k) != s@ by {
                lemma_keyword_like_index(k);
                assert(keyword_like_name(keyword_like_at(keyword_like_index(k)).unwrap()) != s@);
            }
        }
        Err(ParseError::VariantNotFound)
    }
}

/// The spelling of each [`SQLite3Keyword`], as written in SQL.
pub open spec fn keyword_name(k: SQLite3Keyword) -> Seq<char> {
    match k {
        SQLite3Keyword::ABORT => "ABORT"@,
        SQLite3Keyword::ACTION => "ACTION"@,
        SQLite3Keyword::ADD => "ADD"@,
        SQLite3Keyword::AFTER => "AFTER"@,
        SQLite3Keyword::ALL => "ALL"@,
        SQLite3Keyword::ALTER => "ALTER"@,
        SQLite3Keyword::ALWAYS => "ALWAYS"@,
        SQLite3Keyword::ANALYZE => "ANALYZE"@,
        SQLite3Keyword::AND => "AND"@,
        SQLite3Keyword::AS => "AS"@,
        SQLite3Keyword::ASC => "ASC"@,
        SQLite3Keyword::ATTACH => "ATTACH"@,
        SQLite3Keyword::AUTOINCREMENT => "AUTOINCREMENT"@,
        SQLite3Keyword::BEFORE => "BEFORE"@,
        SQLite3Keyword::BEGIN => "BEGIN"@,
        SQLite3Keyword::BETWEEN => "BETWEEN"@,
        SQLite3Keyword::BY => "BY"@,
        SQLite3Keyword::CASCADE => "CASCADE"@,
        SQLite3Keyword::CASE => "CASE"@,
        SQLite3Keyword::CAST => "CAST"@,
        SQLite3Keyword::CHECK => "CHECK"@,
        SQLite3Keyword::COLLATE => "COLLATE"@,
        SQLite3Keyword::COLUMN => "COLUMN"@,
        SQLite3Keyword::COMMIT => "COMMIT"@,
        SQLite3Keyword::CONFLICT => "CONFLICT"@,
        SQLite3Keyword::CONSTRAINT => "CONSTRAINT"@,
        SQLite3Keyword::CREATE => "CREATE"@,
        SQLite3Keyword::CROSS => "CROSS"@,
        SQLite3Keyword::CURRENT => "CURRENT"@,
        SQLite3Keyword::CURRENT_DATE => "CURRENT_DATE"@,
        SQLite3Keyword::CURRENT_TIME => "CURRENT_TIME"@,
        SQLite3Keyword::CURRENT_TIMESTAMP => "CURRENT_TIMESTAMP"@,
        SQLite3Keyword::DATABASE => "DATABASE"@,
        SQLite3Keyword::DEFAULT => "DEFAULT"@,
        SQLite3Keyword::DEFERRED => "DEFERRED"@,
        SQLite3Keyword::DEFERRABLE => "DEFERRABLE"@,
        SQLite3Keyword::DELETE => "DELETE"@,
        SQLite3Keyword::DESC => "DESC"@,
        SQLite3Keyword::DETACH => "DETACH"@,
        SQLite3Keyword::DISTINCT => "DISTINCT"@,
        SQLite3Keyword::DO => "DO"@,
        SQLite3Keyword::DROP => "DROP"@,
        SQLite3Keyword::END => "END"@,
        SQLite3Keyword::EACH => "EACH"@,
        SQLite3Keyword::ELSE => "ELSE"@,
        SQLite3Keyword::ESCAPE => "ESCAPE"@,
        SQLite3Keyword::EXCEPT => "EXCEPT"@,
        SQLite3Keyword::EXCLUSIVE => "EXCLUSIVE"@,
        SQLite3Keyword::EXCLUDE => "EXCLUDE"@,
        SQLite3Keyword::EXISTS => "EXISTS"@,
        SQLite3Keyword::EXPLAIN => "EXPLAIN"@,
        SQLite3Keyword::FAIL => "FAIL"@,
        SQLite3Keyword::FILTER => "FILTER"@,
        SQLite3Keyword::FIRST => "FIRST"@,
        SQLite3Keyword::FOLLOWING => "FOLLOWING"@,
        SQLite3Keyword::FOR => "FOR"@,
        SQLite3Keyword::FOREIGN => "FOREIGN"@,
        SQLite3Keyword::FROM => "FROM"@,
        SQLite3Keyword::FULL => "FULL"@,
        SQLite3Keyword::GENERATED => "GENERATED"@,
        SQLite3Keyword::GLOB => "GLOB"@,
        SQLite3Keyword::GROUP => "GROUP"@,
        SQLite3Keyword::GROUPS => "GROUPS"@,
        SQLite3Keyword::HAVING => "HAVING"@,
        SQLite3Keyword::IF => "IF"@,
        SQLite3Keyword::IGNORE => "IGNORE"@,
        SQLite3Keyword::IMMEDIATE => "IMMEDIATE"@,
        SQLite3Keyword::IN => "IN"@,
        SQLite3Keyword::INDEX => "INDEX"@,
        SQLite3Keyword::INDEXED => "INDEXED"@,
        SQLite3Keyword::INITIALLY => "INITIALLY"@,
        SQLite3Keyword::INNER => "INNER"@,
        SQLite3Keyword::INSERT => "INSERT"@,
        SQLite3Keyword::INSTEAD => "INSTEAD"@,
        SQLite3Keyword::INTERSECT => "INTERSECT"@,
        SQLite3Keyword::INTO => "INTO"@,
        SQLite3Keyword::IS => "IS"@,
        SQLite3Keyword::ISNULL => "ISNULL"@,
        SQLite3Keyword::JOIN => "JOIN"@,
        SQLite3Keyword::KEY => "KEY"@,
        SQLite3Keyword::LAST => "LAST"@,
        SQLite3Keyword::LEFT => "LEFT"@,
        SQLite3Keyword::LIKE => "LIKE"@,
        SQLite3Keyword::LIMIT => "LIMIT"@,
        SQLite3Keyword::MATCH => "MATCH"@,
        SQLite3Keyword::MATERIALIZED => "MATERIALIZED"@,
        SQLite3Keyword::NATURAL => "NATURAL"@,
        SQLite3Keyword::NO => "NO"@,
        SQLite3Keyword::NOT => "NOT"@,
        SQLite3Keyword::NOTHING => "NOTHING"@,
        SQLite3Keyword::NOTNULL => "NOTNULL"@,
        SQLite3Keyword::NULL => "NULL"@,
        SQLite3Keyword::NULLS => "NULLS"@,
        SQLite3Keyword::OF => "OF"@,
        SQLite3Keyword::OFFSET => "OFFSET"@,
        SQLite3Keyword::ON => "ON"@,
        SQLite3Keyword::OR => "OR"@,
        SQLite3Keyword::ORDER => "ORDER"@,
        SQLite3Keyword::OTHERS => "OTHERS"@,
        SQLite3Keyword::OUTER => "OUTER"@,
        SQLite3Keyword::OVER => "OVER"@,
        SQLite3Keyword::PARTITION => "PARTITION"@,
        SQLite3Keyword::PLAN => "PLAN"@,
        SQLite3Keyword::PRAGMA => "PRAGMA"@,
        SQLite3Keyword::PRECEDING => "PRECEDING"@,
        SQLite3Keyword::PRIMARY => "PRIMARY"@,
        SQLite3Keyword::QUERY => "QUERY"@,
        SQLite3Keyword::RAISE => "RAISE"@,
        SQLite3Keyword::RANGE => "RANGE"@,
        SQLite3Keyword::RECURSIVE => "RECURSIVE"@,
        SQLite3Keyword::REFERENCES => "REFERENCES"@,
        SQLite3Keyword::REGEXP => "REGEXP"@,
        SQLite3Keyword::REINDEX => "REINDEX"@,
        SQLite3Keyword::RELEASE => "RELEASE"@,
        SQLite3Keyword::RENAME => "RENAME"@,
        SQLite3Keyword::REPLACE => "REPLACE"@,
        SQLite3Keyword::RESTRICT => "RESTRICT"@,
        SQLite3Keyword::RETURNING => "RETURNING"@,
        SQLite3Keyword::RIGHT => "RIGHT"@,
        SQLite3Keyword::ROLLBACK => "ROLLBACK"@,
        SQLite3Keyword::ROW => "ROW"@,
        SQLite3Keyword::ROWS => "ROWS"@,
        SQLite3Keyword::SAVEPOINT => "SAVEPOINT"@,
        SQLite3Keyword::SELECT => "SELECT"@,
        SQLite3Keyword::SET => "SET"@,
        SQLite3Keyword::TABLE => "TABLE"@,
        SQLite3Keyword::TEMP => "TEMP"@,
        SQLite3Keyword::TEMPORARY => "TEMPORARY"@,
        SQLite3Keyword::THEN => "THEN"@,
        SQLite3Keyword::TIES => "TIES"@,
        SQLite3Keyword::TO => "TO"@,
        SQLite3Keyword::TRANSACTION => "TRANSACTION"@,
        SQLite3Keyword::TRIGGER => "TRIGGER"@,
        SQLite3Keyword::UNBOUNDED => "UNBOUNDED"@,
        SQLite3Keyword::UNION => "UNION"@,
        SQLite3Keyword::UNIQUE => "UNIQUE"@,
        SQLite3Keyword::UPDATE => "UPDATE"@,
        SQLite3Keyword::USING => "USING"@,
        SQLite3Keyword::VACUUM => "VACUUM"@,
        SQLite3Keyword::VALUES => "VALUES"@,
        SQLite3Keyword::VIEW => "VIEW"@,
        SQLite3Keyword::VIRTUAL => "VIRTUAL"@,
        SQLite3Keyword::WHEN => "WHEN"@,
        SQLite3Keyword::WHERE => "WHERE"@,
        SQLite3Keyword::WINDOW => "WINDOW"@,
        SQLite3Keyword::WITH => "WITH"@,
        SQLite3Keyword::WITHIN => "WITHIN"@,
        SQLite3Keyword::WITHOUT => "WITHOUT"@,
    }
}

/// Position of each [`SQLite3Keyword`] in declaration order.
pub open spec fn keyword_index(k: SQLite3Keyword) -> int {
    match k {
        SQLite3Keyword::ABORT => 0,
        SQLite3Keyword::ACTION => 1,
        SQLite3Keyword::ADD => 2,
        SQLite3Keyword::AFTER => 3,
        SQLite3Keyword::ALL => 4,
        SQLite3Keyword::ALTER => 5,
        SQLite3Keyword::ALWAYS => 6,
        SQLite3Keyword::ANALYZE => 7,
        SQLite3Keyword::AND => 8,
        SQLite3Keyword::AS => 9,
        SQLite3Keyword::ASC => 10,
        SQLite3Keyword::ATTACH => 11,
        SQLite3Keyword::AUTOINCREMENT => 12,
        SQLite3Keyword::BEFORE => 13,
        SQLite3Keyword::BEGIN => 14,
        SQLite3Keyword::BETWEEN => 15,
        SQLite3Keyword::BY => 16,
        SQLite3Keyword::CASCADE => 17,
        SQLite3Keyword::CASE => 18,
        SQLite3Keyword::CAST => 19,
        SQLite3Keyword::CHECK => 20,
        SQLite3Keyword::COLLATE => 21,
        SQLite3Keyword::COLUMN => 22,
        SQLite3Keyword::COMMIT => 23,
        SQLite3Keyword::CONFLICT => 24,
        SQLite3Keyword::CONSTRAINT => 25,
        SQLite3Keyword::CREATE => 26,
        SQLite3Keyword::CROSS => 27,
        SQLite3Keyword::CURRENT => 28,
        SQLite3Keyword::CURRENT_DATE => 29,
        SQLite3Keyword::CURRENT_TIME => 30,
        SQLite3Keyword::CURRENT_TIMESTAMP => 31,
        SQLite3Keyword::DATABASE => 32,
        SQLite3Keyword::DEFAULT => 33,
        SQLite3Keyword::DEFERRED => 34,
        SQLite3Keyword::DEFERRABLE => 35,
        SQLite3Keyword::DELETE => 36,
        SQLite3Keyword::DESC => 37,
        SQLite3Keyword::DETACH => 38,
        SQLite3Keyword::DISTINCT => 39,
        SQLite3Keyword::DO => 40,
        SQLite3Keyword::DROP => 41,
        SQLite3Keyword::END => 42,
        SQLite3Keyword::EACH => 43,
        SQLite3Keyword::ELSE => 44,
        SQLite3Keyword::ESCAPE => 45,
        SQLite3Keyword::EXCEPT => 46,
        SQLite3Keyword::EXCLUSIVE => 47,
        SQLite3Keyword::EXCLUDE => 48,
        SQLite3Keyword::EXISTS => 49,
        SQLite3Keyword::EXPLAIN => 50,
        SQLite3Keyword::FAIL => 51,
        SQLite3Keyword::FILTER => 52,
        SQLite3Keyword::FIRST => 53,
        SQLite3Keyword::FOLLOWING => 54,
        SQLite3Keyword::FOR => 55,
        SQLite3Keyword::FOREIGN => 56,
        SQLite3Keyword::FROM => 57,
        SQLite3Keyword::FULL => 58,
        SQLite3Keyword::GENERATED => 59,
        SQLite3Keyword::GLOB => 60,
        SQLite3Keyword::GROUP => 61,
        SQLite3Keyword::GROUPS => 62,
        SQLite3Keyword::HAVING => 63,
        SQLite3Keyword::IF => 64,
        SQLite3Keyword::IGNORE => 65,
        SQLite3Keyword::IMMEDIATE => 66,
        SQLite3Keyword::IN => 67,
        SQLite3Keyword::INDEX => 68,
        SQLite3Keyword::INDEXED => 69,
        SQLite3Keyword::INITIALLY => 70,
        SQLite3Keyword::INNER => 71,
        SQLite3Keyword::INSERT => 72,
        SQLite3Keyword::INSTEAD => 73,
        SQLite3Keyword::INTERSECT => 74,
        SQLite3Keyword::INTO => 75,
        SQLite3Keyword::IS => 76,
        SQLite3Keyword::ISNULL => 77,
        SQLite3Keyword::JOIN => 78,
        SQLite3Keyword::KEY => 79,
        SQLite3Keyword::LAST => 80,
        SQLite3Keyword::LEFT => 81,
        SQLite3Keyword::LIKE => 82,
        SQLite3Keyword::LIMIT => 83,
        SQLite3Keyword::MATCH => 84,
        SQLite3Keyword::MATERIALIZED => 85,
        SQLite3Keyword::NATURAL => 86,
        SQLite3Keyword::NO => 87,
        SQLite3Keyword::NOT => 88,
        SQLite3Keyword::NOTHING => 89,
        SQLite3Keyword::NOTNULL => 90,
        SQLite3Keyword::NULL => 91,
        SQLite3Keyword::NULLS => 92,
        SQLite3Keyword::OF => 93,
        SQLite3Keyword::OFFSET => 94,
        SQLite3Keyword::ON => 95,
        SQLite3Keyword::OR => 96,
        SQLite3Keyword::ORDER => 97,
        SQLite3Keyword::OTHERS => 98,
        SQLite3Keyword::OUTER => 99,
        SQLite3Keyword::OVER => 100,
        SQLite3Keyword::PARTITION => 101,
        SQLite3Keyword::PLAN => 102,
        SQLite3Keyword::PRAGMA => 103,
        SQLite3Keyword::PRECEDING => 104,
        SQLite3Keyword::PRIMARY => 105,
        SQLite3Keyword::QUERY => 106,
        SQLite3Keyword::RAISE => 107,
        SQLite3Keyword::RANGE => 108,
        SQLite3Keyword::RECURSIVE => 109,
        SQLite3Keyword::REFERENCES => 110,
        SQLite3Keyword::REGEXP => 111,
        SQLite3Keyword::REINDEX => 112,
        SQLite3Keyword::RELEASE => 113,
        SQLite3Keyword::RENAME => 114,
        SQLite3Keyword::REPLACE => 115,
        SQLite3Keyword::RESTRICT => 116,
        SQLite3Keyword::RETURNING => 117,
        SQLite3Keyword::RIGHT => 118,
        SQLite3Keyword::ROLLBACK => 119,
        SQLite3Keyword::ROW => 120,
        SQLite3Keyword::ROWS => 121,
        SQLite3Keyword::SAVEPOINT => 122,
        SQLite3Keyword::SELECT => 123,
        SQLite3Keyword::SET => 124,
        SQLite3Keyword::TABLE => 125,
        SQLite3Keyword::TEMP => 126,
        SQLite3Keyword::TEMPORARY => 127,
        SQLite3Keyword::THEN => 128,
        SQLite3Keyword::TIES => 129,
        SQLite3Keyword::TO => 130,
        SQLite3Keyword::TRANSACTION => 131,
        SQLite3Keyword::TRIGGER => 132,
        SQLite3Keyword::UNBOUNDED => 133,
        SQLite3Keyword::UNION => 134,
        SQLite3Keyword::UNIQUE => 135,
        SQLite3Keyword::UPDATE => 136,
        SQLite3Keyword::USING => 137,
        SQLite3Keyword::VACUUM => 138,
        SQLite3Keyword::VALUES => 139,
        SQLite3Keyword::VIEW => 140,
        SQLite3Keyword::VIRTUAL => 141,
        SQLite3Keyword::WHEN => 142,
        SQLite3Keyword::WHERE => 143,
        SQLite3Keyword::WINDOW => 144,
        SQLite3Keyword::WITH => 145,
        SQLite3Keyword::WITHIN => 146,
        SQLite3Keyword::WITHOUT => 147,
    }
}

/// The [`SQLite3Keyword`] declared at position `i`.
pub open spec fn keyword_at(i: int) -> Option<SQLite3Keyword> {
    if i == 0 {
        Some(SQLite3Keyword::ABORT)
    } else if i == 1 {
        Some(SQLite3Keyword::ACTION)
    } else if i == 2 {
        Some(SQLite3Keyword::ADD)
    } else if i == 3 {
        Some(SQLite3Keyword::AFTER)
    } else if i == 4 {
        Some(SQLite3Keyword::ALL)
    } else if i == 5 {
        Some(SQLite3Keyword::ALTER)
    } else if i == 6 {
        Some(SQLite3Keyword::ALWAYS)
    } else if i == 7 {
        Some(SQLite3Keyword::ANALYZE)
    } else if i == 8 {
        Some(SQLite3Keyword::AND)
    } else if i == 9 {
        Some(SQLite3Keyword::AS)
    } else if i == 10 {
        Some(SQLite3Keyword::ASC)
    } else if i == 11 {
        Some(SQLite3Keyword::ATTACH)
    } else if i == 12 {
        Some(SQLite3Keyword::AUTOINCREMENT)
    } else if i == 13 {
        Some(SQLite3Keyword::BEFORE)
    } else if i == 14 {
        Some(SQLite3Keyword::BEGIN)
    } else if i == 15 {
        Some(SQLite3Keyword::BETWEEN)
    } else if i == 16 {
        Some(SQLite3Keyword::BY)
    } else if i == 17 {
        Some(SQLite3Keyword::CASCADE)
    } else if i == 18 {
        Some(SQLite3Keyword::CASE)
    } else if i == 19 {
        Some(SQLite3Keyword::CAST)
    } else if i == 20 {
        Some(SQLite3Keyword::CHECK)
    } else if i == 21 {
        Some(SQLite3Keyword::COLLATE)
    } else if i == 22 {
        Some(SQLite3Keyword::COLUMN)
    } else if i == 23 {
        Some(SQLite3Keyword::COMMIT)
    } else if i == 24 {
        Some(SQLite3Keyword::CONFLICT)
    } else if i == 25 {
        Some(SQLite3Keyword::CONSTRAINT)
    } else if i == 26 {
        Some(SQLite3Keyword::CREATE)
    } else if i == 27 {
        Some(SQLite3Keyword::CROSS)
    } else if i == 28 {
        Some(SQLite3Keyword::CURRENT)
    } else if i == 29 {
        Some(SQLite3Keyword::CURRENT_DATE)
    } else if i == 30 {
        Some(SQLite3Keyword::CURRENT_TIME)
    } else if i == 31 {
        Some(SQLite3Keyword::CURRENT_TIMESTAMP)
    } else if i == 32 {
        Some(SQLite3Keyword::DATABASE)
    } else if i == 33 {
        Some(SQLite3Keyword::DEFAULT)
    } else if i == 34 {
        Some(SQLite3Keyword::DEFERRED)
    } else if i == 35 {
        Some(SQLite3Keyword::DEFERRABLE)
    } else if i == 36 {
        Some(SQLite3Keyword::DELETE)
    } else if i == 37 {
        Some(SQLite3Keyword::DESC)
    } else if i == 38 {
        Some(SQLite3Keyword::DETACH)
    } else if i == 39 {
        Some(SQLite3Keyword::DISTINCT)
    } else if i == 40 {
        Some(SQLite3Keyword::DO)
    } else if i == 41 {
        Some(SQLite3Keyword::DROP)
    } else if i == 42 {
        Some(SQLite3Keyword::END)
    } else if i == 43 {
        Some(SQLite3Keyword::EACH)
    } else if i == 44 {
        Some(SQLite3Keyword::ELSE)
    } else if i == 45 {
        Some(SQLite3Keyword::ESCAPE)
    } else if i == 46 {
        Some(SQLite3Keyword::EXCEPT)
    } else if i == 47 {
        Some(SQLite3Keyword::EXCLUSIVE)
    } else if i == 48 {
        Some(SQLite3Keyword::EXCLUDE)
    } else if i == 49 {
        Some(SQLite3Keyword::EXISTS)
    } else if i == 50 {
        Some(SQLite3Keyword::EXPLAIN)
    } else if i == 51 {
        Some(SQLite3Keyword::FAIL)
    } else if i == 52 {
        Some(SQLite3Keyword::FILTER)
    } else if i == 53 {
        Some(SQLite3Keyword::FIRST)
    } else if i == 54 {
        Some(SQLite3Keyword::FOLLOWING)
    } else if i == 55 {
        Some(SQLite3Keyword::FOR)
    } else if i == 56 {
        Some(SQLite3Keyword::FOREIGN)
    } else if i == 57 {
        Some(SQLite3Keyword::FROM)
    } else if i == 58 {
        Some(SQLite3Keyword::FULL)
    } else if i == 59 {
        Some(SQLite3Keyword::GENERATED)
    } else if i == 60 {
        Some(SQLite3Keyword::GLOB)
    } else if i == 61 {
        Some(SQLite3Keyword::GROUP)
    } else if i == 62 {
        Some(SQLite3Keyword::GROUPS)
    } else if i == 63 {
        Some(SQLite3Keyword::HAVING)
    } else if i == 64 {
        Some(SQLite3Keyword::IF)
    } else if i == 65 {
        Some(SQLite3Keyword::IGNORE)
    } else if i == 66 {
        Some(SQLite3Keyword::IMMEDIATE)
    } else if i == 67 {
        Some(SQLite3Keyword::IN)
    } else if i == 68 {
        Some(SQLite3Keyword::INDEX)
    } else if i == 69 {
        Some(SQLite3Keyword::INDEXED)
    } else if i == 70 {
        Some(SQLite3Keyword::INITIALLY)
    } else if i == 71 {
        Some(SQLite3Keyword::INNER)
    } else if i == 72 {
        Some(SQLite3Keyword::INSERT)
    } else if i == 73 {
        Some(SQLite3Keyword::INSTEAD)
    } else if i == 74 {
        Some(SQLite3Keyword::INTERSECT)
    } else if i == 75 {
        Some(SQLite3Keyword::INTO)
    } else if i == 76 {
        Some(SQLite3Keyword::IS)
    } else if i == 77 {
        Some(SQLite3Keyword::ISNULL)
    } else if i == 78 {
        Some(SQLite3Keyword::JOIN)
    } else if i == 79 {
        Some(SQLite3Keyword::KEY)
    } else if i == 80 {
        Some(SQLite3Keyword::LAST)
    } else if i == 81 {
        Some(SQLite3Keyword::LEFT)
    } else if i == 82 {
        Some(SQLite3Keyword::LIKE)
    } else if i == 83 {
        Some(SQLite3Keyword::LIMIT)
    } else if i == 84 {
        Some(SQLite3Keyword::MATCH)
    } else if i == 85 {
        Some(SQLite3Keyword::MATERIALIZED)
    } else if i == 86 {
        Some(SQLite3Keyword::NATURAL)
    } else if i == 87 {
        Some(SQLite3Keyword::NO)
    } else if i == 88 {
        Some(SQLite3Keyword::NOT)
    } else if i == 89 {
        Some(SQLite3Keyword::NOTHING)
    } else if i == 90 {
        Some(SQLite3Keyword::NOTNULL)
    } else if i == 91 {
        Some(SQLite3Keyword::NULL)
    } else if i == 92 {
        Some(SQLite3Keyword::NULLS)
    } else if i == 93 {
        Some(SQLite3Keyword::OF)
    } else if i == 94 {
        Some(SQLite3Keyword::OFFSET)
    } else if i == 95 {
        Some(SQLite3Keyword::ON)
    } else if i == 96 {
        Some(SQLite3Keyword::OR)
    } else if i == 97 {
        Some(SQLite3Keyword::ORDER)
    } else if i == 98 {
        Some(SQLite3Keyword::OTHERS)
    } else if i == 99 {
        Some(SQLite3Keyword::OUTER)
    } else if i == 100 {
        Some(SQLite3Keyword::OVER)
    } else if i == 101 {
        Some(SQLite3Keyword::PARTITION)
    } else if i == 102 {
        Some(SQLite3Keyword::PLAN)
    } else if i == 103 {
        Some(SQLite3Keyword::PRAGMA)
    } else if i == 104 {
        Some(SQLite3Keyword::PRECEDING)
    } else if i == 105 {
        Some(SQLite3Keyword::PRIMARY)
    } else if i == 106 {
        Some(SQLite3Keyword::QUERY)
    } else if i == 107 {
        Some(SQLite3Keyword::RAISE)
    } else if i == 108 {
        Some(SQLite3Keyword::RANGE)
    } else if i == 109 {
        Some(SQLite3Keyword::RECURSIVE)
    } else if i == 110 {
        Some(SQLite3Keyword::REFERENCES)
    } else if i == 111 {
        Some(SQLite3Keyword::REGEXP)
    } else if i == 112 {
        Some(SQLite3Keyword::REINDEX)
    } else if i == 113 {
        Some(SQLite3Keyword::RELEASE)
    } else if i == 114 {
        Some(SQLite3Keyword::RENAME)
    } else if i == 115 {
        Some(SQLite3Keyword::REPLACE)
    } else if i == 116 {
        Some(SQLite3Keyword::RESTRICT)
    } else if i == 117 {
        Some(SQLite3Keyword::RETURNING)
    } else if i == 118 {
        Some(SQLite3Keyword::RIGHT)
    } else if i == 119 {
        Some(SQLite3Keyword::ROLLBACK)
    } else if i == 120 {
        Some(SQLite3Keyword::ROW)
    } else if i == 121 {
        Some(SQLite3Keyword::ROWS)
    } else if i == 122 {
        Some(SQLite3Keyword::SAVEPOINT)
    } else if i == 123 {
        Some(SQLite3Keyword::SELECT)
    } else if i == 124 {
        Some(SQLite3Keyword::SET)
    } else if i == 125 {
        Some(SQLite3Keyword::TABLE)
    } else if i == 126 {
        Some(SQLite3Keyword::TEMP)
    } else if i == 127 {
        Some(SQLite3Keyword::TEMPORARY)
    } else if i == 128 {
        Some(SQLite3Keyword::THEN)
    } else if i == 129 {
        Some(SQLite3Keyword::TIES)
    } else if i == 130 {
        Some(SQLite3Keyword::TO)
    } else if i == 131 {
        Some(SQLite3Keyword::TRANSACTION)
    } else if i == 132 {
        Some(SQLite3Keyword::TRIGGER)
    } else if i == 133 {
        Some(SQLite3Keyword::UNBOUNDED)
    } else if i == 134 {
        Some(SQLite3Keyword::UNION)
    } else if i == 135 {
        Some(SQLite3Keyword::UNIQUE)
    } else if i == 136 {
        Some(SQLite3Keyword::UPDATE)
    } else if i == 137 {
        Some(SQLite3Keyword::USING)
    } else if i == 138 {
        Some(SQLite3Keyword::VACUUM)
    } else if i == 139 {
        Some(SQLite3Keyword::VALUES)
    } else if i == 140 {
        Some(SQLite3Keyword::VIEW)
    } else if i == 141 {
        Some(SQLite3Keyword::VIRTUAL)
    } else if i == 142 {
        Some(SQLite3Keyword::WHEN)
    } else if i == 143 {
        Some(SQLite3Keyword::WHERE)
    } else if i == 144 {
        Some(SQLite3Keyword::WINDOW)
    } else if i == 145 {
        Some(SQLite3Keyword::WITH)
    } else if i == 146 {
        Some(SQLite3Keyword::WITHIN)
    } else if i == 147 {
        Some(SQLite3Keyword::WITHOUT)
    } else {
        None
    }
}

/// The number of [`SQLite3Keyword`] variants.
pub const KEYWORD_COUNT: usize = 148;

/// The first variant, from position `i` on, spelled `s`.
pub open spec fn keyword_lookup(s: Seq<char>, i: int) -> Option<SQLite3Keyword>
    decreases KEYWORD_COUNT - i,
{
    if i < 0 || i >= KEYWORD_COUNT {
        None
    } else if keyword_name(keyword_at(i).unwrap()) == s {
        keyword_at(i)
    } else {
        keyword_lookup(s, i + 1)
    }
}

pub proof fn lemma_keyword_index(k: SQLite3Keyword)
    ensures
        0 <= keyword_index(k) < KEYWORD_COUNT,
        keyword_at(keyword_index(k)) == Some(k),
{
}

pub proof fn lemma_keyword_at(i: int)
    ensures
        0 <= i < KEYWORD_COUNT <==> keyword_at(i) is Some,
{
}

impl SQLite3Keyword {
    /// The spelling of this variant, as written in SQL.
    pub fn as_ref(&self) -> (r: &'static str)
        ensures
            r@ == keyword_name(*self),
    {
        match self {
            SQLite3Keyword::ABORT => "ABORT",
            SQLite3Keyword::ACTION => "ACTION",
            SQLite3Keyword::ADD => "ADD",
            SQLite3Keyword::AFTER => "AFTER",
            SQLite3Keyword::ALL => "ALL",
            SQLite3Keyword::ALTER => "ALTER",
            SQLite3Keyword::ALWAYS => "ALWAYS",
            SQLite3Keyword::ANALYZE => "ANALYZE",
            SQLite3Keyword::AND => "AND",
            SQLite3Keyword::AS => "AS",
            SQLite3Keyword::ASC => "ASC",
            SQLite3Keyword::ATTACH => "ATTACH",
            SQLite3Keyword::AUTOINCREMENT => "AUTOINCREMENT",
            SQLite3Keyword::BEFORE => "BEFORE",
            SQLite3Keyword::BEGIN => "BEGIN",
            SQLite3Keyword::BETWEEN => "BETWEEN",
            SQLite3Keyword::BY => "BY",
            SQLite3Keyword::CASCADE => "CASCADE",
            SQLite3Keyword::CASE => "CASE",
            SQLite3Keyword::CAST => "CAST",
            SQLite3Keyword::CHECK => "CHECK",
            SQLite3Keyword::COLLATE => "COLLATE",
            SQLite3Keyword::COLUMN => "COLUMN",
            SQLite3Keyword::COMMIT => "COMMIT",
            SQLite3Keyword::CONFLICT => "CONFLICT",
            SQLite3Keyword::CONSTRAINT => "CONSTRAINT",
            SQLite3Keyword::CREATE => "CREATE",
            SQLite3Keyword::CROSS => "CROSS",
            SQLite3Keyword::CURRENT => "CURRENT",
            SQLite3Keyword::CURRENT_DATE => "CURRENT_DATE",
            SQLite3Keyword::CURRENT_TIME => "CURRENT_TIME",
            SQLite3Keyword::CURRENT_TIMESTAMP => "CURRENT_TIMESTAMP",
            SQLite3Keyword::DATABASE => "DATABASE",
            SQLite3Keyword::DEFAULT => "DEFAULT",
            SQLite3Keyword::DEFERRED => "DEFERRED",
            SQLite3Keyword::DEFERRABLE => "DEFERRABLE",
            SQLite3Keyword::DELETE => "DELETE",
            SQLite3Keyword::DESC => "DESC",
            SQLite3Keyword::DETACH => "DETACH",
            SQLite3Keyword::DISTINCT => "DISTINCT",
            SQLite3Keyword::DO => "DO",
            SQLite3Keyword::DROP => "DROP",
            SQLite3Keyword::END => "END",
            SQLite3Keyword::EACH => "EACH",
            SQLite3Keyword::ELSE => "ELSE",
            SQLite3Keyword::ESCAPE => "ESCAPE",
            SQLite3Keyword::EXCEPT => "EXCEPT",
            SQLite3Keyword::EXCLUSIVE => "EXCLUSIVE",
            SQLite3Keyword::EXCLUDE => "EXCLUDE",
            SQLite3Keyword::EXISTS => "EXISTS",
            SQLite3Keyword::EXPLAIN => "EXPLAIN",
            SQLite3Keyword::FAIL => "FAIL",
            SQLite3Keyword::FILTER => "FILTER",
            SQLite3Keyword::FIRST => "FIRST",
            SQLite3Keyword::FOLLOWING => "FOLLOWING",
            SQLite3Keyword::FOR => "FOR",
            SQLite3Keyword::FOREIGN => "FOREIGN",
            SQLite3Keyword::FROM => "FROM",
            SQLite3Keyword::FULL => "FULL",
            SQLite3Keyword::GENERATED => "GENERATED",
            SQLite3Keyword::GLOB => "GLOB",
            SQLite3Keyword::GROUP => "GROUP",
            SQLite3Keyword::GROUPS => "GROUPS",
            SQLite3Keyword::HAVING => "HAVING",
            SQLite3Keyword::IF => "IF",
            SQLite3Keyword::IGNORE => "IGNORE",
            SQLite3Keyword::IMMEDIATE => "IMMEDIATE",
            SQLite3Keyword::IN => "IN",
            SQLite3Keyword::INDEX => "INDEX",
            SQLite3Keyword::INDEXED => "INDEXED",
            SQLite3Keyword::INITIALLY => "INITIALLY",
            SQLite3Keyword::INNER => "INNER",
            SQLite3Keyword::INSERT => "INSERT",
            SQLite3Keyword::INSTEAD => "INSTEAD",
            SQLite3Keyword::INTERSECT => "INTERSECT",
            SQLite3Keyword::INTO => "INTO",
            SQLite3Keyword::IS => "IS",
            SQLite3Keyword::ISNULL => "ISNULL",
            SQLite3Keyword::JOIN => "JOIN",
            SQLite3Keyword::KEY => "KEY",
            SQLite3Keyword::LAST => "LAST",
            SQLite3Keyword::LEFT => "LEFT",
            SQLite3Keyword::LIKE => "LIKE",
            SQLite3Keyword::LIMIT => "LIMIT",
            SQLite3Keyword::MATCH => "MATCH",
            SQLite3Keyword::MATERIALIZED => "MATERIALIZED",
            SQLite3Keyword::NATURAL => "NATURAL",
            SQLite3Keyword::NO => "NO",
            SQLite3Keyword::NOT => "NOT",
            SQLite3Keyword::NOTHING => "NOTHING",
            SQLite3Keyword::NOTNULL => "NOTNULL",
            SQLite3Keyword::NULL => "NULL",
            SQLite3Keyword::NULLS => "NULLS",
            SQLite3Keyword::OF => "OF",
            SQLite3Keyword::OFFSET => "OFFSET",
            SQLite3Keyword::ON => "ON",
            SQLite3Keyword::OR => "OR",
            SQLite3Keyword::ORDER => "ORDER",
            SQLite3Keyword::OTHERS => "OTHERS",
            SQLite3Keyword::OUTER => "OUTER",
            SQLite3Keyword::OVER => "OVER",
            SQLite3Keyword::PARTITION => "PARTITION",
            SQLite3Keyword::PLAN => "PLAN",
            SQLite3Keyword::PRAGMA => "PRAGMA",
            SQLite3Keyword::PRECEDING => "PRECEDING",
            SQLite3Keyword::PRIMARY => "PRIMARY",
            SQLite3Keyword::QUERY => "QUERY",
            SQLite3Keyword::RAISE => "RAISE",
            SQLite3Keyword::RANGE => "RANGE",
            SQLite3Keyword::RECURSIVE => "RECURSIVE",
            SQLite3Keyword::REFERENCES => "REFERENCES",
            SQLite3Keyword::REGEXP => "REGEXP",
            SQLite3Keyword::REINDEX => "REINDEX",
            SQLite3Keyword::RELEASE => "RELEASE",
            SQLite3Keyword::RENAME => "RENAME",
            SQLite3Keyword::REPLACE => "REPLACE",
            SQLite3Keyword::RESTRICT => "RESTRICT",
            SQLite3Keyword::RETURNING => "RETURNING",
            SQLite3Keyword::RIGHT => "RIGHT",
            SQLite3Keyword::ROLLBACK => "ROLLBACK",
            SQLite3Keyword::ROW => "ROW",
            SQLite3Keyword::ROWS => "ROWS",
            SQLite3Keyword::SAVEPOINT => "SAVEPOINT",
            SQLite3Keyword::SELECT => "SELECT",
            SQLite3Keyword::SET => "SET",
            SQLite3Keyword::TABLE => "TABLE",
            SQLite3Keyword::TEMP => "TEMP",
            SQLite3Keyword::TEMPORARY => "TEMPORARY",
            SQLite3Keyword::THEN => "THEN",
            SQLite3Keyword::TIES => "TIES",
            SQLite3Keyword::TO => "TO",
            SQLite3Keyword::TRANSACTION => "TRANSACTION",
            SQLite3Keyword::TRIGGER => "TRIGGER",
            SQLite3Keyword::UNBOUNDED => "UNBOUNDED",
            SQLite3Keyword::UNION => "UNION",
            SQLite3Keyword::UNIQUE => "UNIQUE",
            SQLite3Keyword::UPDATE => "UPDATE",
            SQLite3Keyword::USING => "USING",
            SQLite3Keyword::VACUUM => "VACUUM",
            SQLite3Keyword::VALUES => "VALUES",
            SQLite3Keyword::VIEW => "VIEW",
            SQLite3Keyword::VIRTUAL => "VIRTUAL",
            SQLite3Keyword::WHEN => "WHEN",
            SQLite3Keyword::WHERE => "WHERE",
            SQLite3Keyword::WINDOW => "WINDOW",
            SQLite3Keyword::WITH => "WITH",
            SQLite3Keyword::WITHIN => "WITHIN",
            SQLite3Keyword::WITHOUT => "WITHOUT",
        }
    }

    /// The variant declared at position `i`, if any.
    pub fn from_index(i: usize) -> (r: Option<Self>)
        ensures
            r == keyword_at(i as int),
    {
        match i {
            0 => Some(SQLite3Keyword::ABORT),
            1 => Some(SQLite3Keyword::ACTION),
            2 => Some(SQLite3Keyword::ADD),
            3 => Some(SQLite3Keyword::AFTER),
            4 => Some(SQLite3Keyword::ALL),
            5 => Some(SQLite3Keyword::ALTER),
            6 => Some(SQLite3Keyword::ALWAYS),
            7 => Some(SQLite3Keyword::ANALYZE),
            8 => Some(SQLite3Keyword::AND),
            9 => Some(SQLite3Keyword::AS),
            10 => Some(SQLite3Keyword::ASC),
            11 => Some(SQLite3Keyword::ATTACH),
            12 => Some(SQLite3Keyword::AUTOINCREMENT),
            13 => Some(SQLite3Keyword::BEFORE),
            14 => Some(SQLite3Keyword::BEGIN),
            15 => Some(SQLite3Keyword::BETWEEN),
            16 => Some(SQLite3Keyword::BY),
            17 => Some(SQLite3Keyword::CASCADE),
            18 => Some(SQLite3Keyword::CASE),
            19 => Some(SQLite3Keyword::CAST),
            20 => Some(SQLite3Keyword::CHECK),
            21 => Some(SQLite3Keyword::COLLATE),
            22 => Some(SQLite3Keyword::COLUMN),
            23 => Some(SQLite3Keyword::COMMIT),
            24 => Some(SQLite3Keyword::CONFLICT),
            25 => Some(SQLite3Keyword::CONSTRAINT),
            26 => Some(SQLite3Keyword::CREATE),
            27 => Some(SQLite3Keyword::CROSS),
            28 => Some(SQLite3Keyword::CURRENT),
            29 => Some(SQLite3Keyword::CURRENT_DATE),
            30 => Some(SQLite3Keyword::CURRENT_TIME),
            31 => Some(SQLite3Keyword::CURRENT_TIMESTAMP),
            32 => Some(SQLite3Keyword::DATABASE),
            33 => Some(SQLite3Keyword::DEFAULT),
            34 => Some(SQLite3Keyword::DEFERRED),
            35 => Some(SQLite3Keyword::DEFERRABLE),
            36 => Some(SQLite3Keyword::DELETE),
            37 => Some(SQLite3Keyword::DESC),
            38 => Some(SQLite3Keyword::DETACH),
            39 => Some(SQLite3Keyword::DISTINCT),
            40 => Some(SQLite3Keyword::DO),
            41 => Some(SQLite3Keyword::DROP),
            42 => Some(SQLite3Keyword::END),
            43 => Some(SQLite3Keyword::EACH),
            44 => Some(SQLite3Keyword::ELSE),
            45 => Some(SQLite3Keyword::ESCAPE),
            46 => Some(SQLite3Keyword::EXCEPT),
            47 => Some(SQLite3Keyword::EXCLUSIVE),
            48 => Some(SQLite3Keyword::EXCLUDE),
            49 => Some(SQLite3Keyword::EXISTS),
            50 => Some(SQLite3Keyword::EXPLAIN),
            51 => Some(SQLite3Keyword::FAIL),
            52 => Some(SQLite3Keyword::FILTER),
            53 => Some(SQLite3Keyword::FIRST),
            54 => Some(SQLite3Keyword::FOLLOWING),
            55 => Some(SQLite3Keyword::FOR),
            56 => Some(SQLite3Keyword::FOREIGN),
            57 => Some(SQLite3Keyword::FROM),
            58 => Some(SQLite3Keyword::FULL),
            59 => Some(SQLite3Keyword::GENERATED),
            60 => Some(SQLite3Keyword::GLOB),
            61 => Some(SQLite3Keyword::GROUP),
            62 => Some(SQLite3Keyword::GROUPS),
            63 => Some(SQLite3Keyword::HAVING),
            64 => Some(SQLite3Keyword::IF),
            65 => Some(SQLite3Keyword::IGNORE),
            66 => Some(SQLite3Keyword::IMMEDIATE),
            67 => Some(SQLite3Keyword::IN),
            68 => Some(SQLite3Keyword::INDEX),
            69 => Some(SQLite3Keyword::INDEXED),
            70 => Some(SQLite3Keyword::INITIALLY),
            71 => Some(SQLite3Keyword::INNER),
            72 => Some(SQLite3Keyword::INSERT),
            73 => Some(SQLite3Keyword::INSTEAD),
            74 => Some(SQLite3Keyword::INTERSECT),
            75 => Some(SQLite3Keyword::INTO),
            76 => Some(SQLite3Keyword::IS),
            77 => Some(SQLite3Keyword::ISNULL),
            78 => Some(SQLite3Keyword::JOIN),
            79 => Some(SQLite3Keyword::KEY),
            80 => Some(SQLite3Keyword::LAST),
            81 => Some(SQLite3Keyword::LEFT),
            82 => Some(SQLite3Keyword::LIKE),
            83 => Some(SQLite3Keyword::LIMIT),
            84 => Some(SQLite3Keyword::MATCH),
            85 => Some(SQLite3Keyword::MATERIALIZED),
            86 => Some(SQLite3Keyword::NATURAL),
            87 => Some(SQLite3Keyword::NO),
            88 => Some(SQLite3Keyword::NOT),
            89 => Some(SQLite3Keyword::NOTHING),
            90 => Some(SQLite3Keyword::NOTNULL),
            91 => Some(SQLite3Keyword::NULL),
            92 => Some(SQLite3Keyword::NULLS),
            93 => Some(SQLite3Keyword::OF),
            94 => Some(SQLite3Keyword::OFFSET),
            95 => Some(SQLite3Keyword::ON),
            96 => Some(SQLite3Keyword::OR),
            97 => Some(SQLite3Keyword::ORDER),
            98 => Some(SQLite3Keyword::OTHERS),
            99 => Some(SQLite3Keyword::OUTER),
            100 => Some(SQLite3Keyword::OVER),
            101 => Some(SQLite3Keyword::PARTITION),
            102 => Some(SQLite3Keyword::PLAN),
            103 => Some(SQLite3Keyword::PRAGMA),
            104 => Some(SQLite3Keyword::PRECEDING),
            105 => Some(SQLite3Keyword::PRIMARY),
            106 => Some(SQLite3Keyword::QUERY),
            107 => Some(SQLite3Keyword::RAISE),
            108 => Some(SQLite3Keyword::RANGE),
            109 => Some(SQLite3Keyword::RECURSIVE),
            110 => Some(SQLite3Keyword::REFERENCES),
            111 => Some(SQLite3Keyword::REGEXP),
            112 => Some(SQLite3Keyword::REINDEX),
            113 => Some(SQLite3Keyword::RELEASE),
            114 => Some(SQLite3Keyword::RENAME),
            115 => Some(SQLite3Keyword::REPLACE),
            116 => Some(SQLite3Keyword::RESTRICT),
            117 => Some(SQLite3Keyword::RETURNING),
            118 => Some(SQLite3Keyword::RIGHT),
            119 => Some(SQLite3Keyword::ROLLBACK),
            120 => Some(SQLite3Keyword::ROW),
            121 => Some(SQLite3Keyword::ROWS),
            122 => Some(SQLite3Keyword::SAVEPOINT),
            123 => Some(SQLite3Keyword::SELECT),
            124 => Some(SQLite3Keyword::SET),
            125 => Some(SQLite3Keyword::TABLE),
            126 => Some(SQLite3Keyword::TEMP),
            127 => Some(SQLite3Keyword::TEMPORARY),
            128 => Some(SQLite3Keyword::THEN),
            129 => Some(SQLite3Keyword::TIES),
            130 => Some(SQLite3Keyword::TO),
            131 => Some(SQLite3Keyword::TRANSACTION),
            132 => Some(SQLite3Keyword::TRIGGER),
            133 => Some(SQLite3Keyword::UNBOUNDED),
            134 => Some(SQLite3Keyword::UNION),
            135 => Some(SQLite3Keyword::UNIQUE),
            136 => Some(SQLite3Keyword::UPDATE),
            137 => Some(SQLite3Keyword::USING),
            138 => Some(SQLite3Keyword::VACUUM),
            139 => Some(SQLite3Keyword::VALUES),
            140 => Some(SQLite3Keyword::VIEW),
            141 => Some(SQLite3Keyword::VIRTUAL),
            142 => Some(SQLite3Keyword::WHEN),
            143 => Some(SQLite3Keyword::WHERE),
            144 => Some(SQLite3Keyword::WINDOW),
            145 => Some(SQLite3Keyword::WITH),
            146 => Some(SQLite3Keyword::WITHIN),
            147 => Some(SQLite3Keyword::WITHOUT),
            _ => None,
        }
    }

    /// Every variant, in declaration order.
    pub fn all() -> (r: Vec<Self>)
        ensures
            r@.len() == KEYWORD_COUNT,
            forall|i: int| 0 <= i < r@.len() ==> Some(#[trigger] r@[i]) == keyword_at(i),
    {
        let mut r: Vec<Self> = Vec::new();
        let mut i: usize = 0;
        while i < KEYWORD_COUNT
            invariant
                i <= KEYWORD_COUNT,
                r@.len() == i,
                forall|j: int| 0 <= j < i ==> Some(#[trigger] r@[j]) == keyword_at(j),
            decreases KEYWORD_COUNT - i,
        {
            proof { lemma_keyword_at(i as int); }
            let k = Self::from_index(i).unwrap();
            r.push(k);
            i = i + 1;
        }
        r
    }

    /// The variant spelled exactly `s` (case-sensitive).
    pub fn from_str(s: &str) -> (r: Result<Self, ParseError>)
        ensures
            match r {
                Ok(k) => keyword_name(k) == s@ && keyword_lookup(s@, 0) == Some(k),
                Err(_) => (forall|k: SQLite3Keyword| keyword_name(k) != s@) && keyword_lookup(s@, 0) is None,
            },
    {
        let target = str_chars(s);
        let mut i: usize = 0;
        while i < KEYWORD_COUNT
            invariant
                i <= KEYWORD_COUNT,
                target@ == s@,
                keyword_lookup(s@, 0) == keyword_lookup(s@, i as int),
                forall|j: int| 0 <= j < i ==> keyword_name(#[trigger] keyword_at(j).unwrap()) != s@,
            decreases KEYWORD_COUNT - i,
        {
            proof { lemma_keyword_at(i as int); }
            let k = Self::from_index(i).unwrap();
            let name = str_chars(k.as_ref());
            if chars_eq(&name, &target) {
                return Ok(k);
            }
            i = i + 1;
        }
        proof {
            assert(keyword_lookup(s@, i as int) is None);
            assert forall|k: SQLite3Keyword| keyword_name(k) != s@ by {
                lemma_keyword_index(k);
                assert(keyword_name(keyword_at(keyword_index(k)).unwrap()) != s@);
            }
        }
        Err(ParseError::VariantNotFound)
    }
}

} // verus!
