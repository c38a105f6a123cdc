use sqlite3_editor::location::ZeroIndexedLocation;
use sqlite3_editor::token::SQLite3Keyword;
use sqlite3_editor::token::SQLite3KeywordLikeIdentifier;
use sqlite3_editor::token::SQLite3Token;
use sqlite3_editor::token::SQLite3Token::{Comma, Identifier, Keyword, LParen, NumericLiteral, Placeholder, RParen, SemiColon, Whitespace};
use sqlite3_editor::token::SQLite3PlaceholderKind;
use sqlite3_editor::tokenize::tokenize_with_range_location;
use sqlite3_editor::range::ZeroIndexedRange;

fn test(sql: &str, expectation: Vec<SQLite3Token>) {
    assert_eq!(
        tokenize_with_range_location(sql)
            .unwrap()
            .iter()
            .cloned()
            .map(|v| v.value)
            .collect::<Vec<_>>(),
        expectation
    )
}

#[test]
fn test_keywords() {
    for kwd in SQLite3Keyword::all() {
        test(
            &format!("{} 1", kwd.as_ref()),
            vec![Keyword(kwd), Whitespace(false), NumericLiteral("1".to_owned())],
        );
    }
    for kwd in SQLite3Keyword::all() {
        test(
            &format!("{} 1", kwd.as_ref().to_lowercase()),
            vec![Keyword(kwd), Whitespace(false), NumericLiteral("1".to_owned())],
        );
    }
}

fn test_numeric_literal(literal: &str) {
    test(
        &format!("SELECT {literal}"),
        vec![Keyword(SQLite3Keyword::SELECT), Whitespace(false), NumericLiteral(literal.to_owned())],
    );
    test(
        &format!("SELECT {literal} 0"),
        vec![
            Keyword(SQLite3Keyword::SELECT),
            Whitespace(false),
            NumericLiteral(literal.to_owned()),
            Whitespace(false),
            NumericLiteral("0".to_owned()),
        ],
    );
}

#[test]
fn test_decimal_numeric_literals() {
    for part1 in ["00", "00_00_00"] {
        test_numeric_literal(part1);
        test_numeric_literal(&format!(".{part1}"));
        for part2 in ["00", "00_00_00"] {
            test_numeric_literal(&format!("{part1}.{part2}"));
            for e in ["e", "E"] {
                test_numeric_literal(&format!(".{part1}{e}{part2}"));
                test_numeric_literal(&format!(".{part1}{e}+{part2}"));
                test_numeric_literal(&format!(".{part1}{e}-{part2}"));
                for part3 in ["00", "00_00_00"] {
                    test_numeric_literal(&format!("{part1}.{part2}{e}{part3}"));
                    test_numeric_literal(&format!("{part1}.{part2}{e}+{part3}"));
                    test_numeric_literal(&format!("{part1}.{part2}{e}-{part3}"));
                }
            }
        }
    }
}

#[test]
fn test_hex_numeric_literals() {
    test_numeric_literal("0x00");
    test_numeric_literal("0x00_00_00");
    test_numeric_literal("0X00");
    test_numeric_literal("0X00_00");
}

#[test]
fn test_identifiers() {
    test(
        r#"SELECT "foo""bar", `foo"bar`"#,
        vec![
            Keyword(SQLite3Keyword::SELECT),
            Whitespace(false),
            Identifier("foo\"bar".to_owned(), None),
            Comma,
            Whitespace(false),
            Identifier("foo\"bar".to_owned(), None),
        ],
    );
}

#[test]
fn test_keyword_like_identifiers() {
    test(
        r#"SELECT true, STRICT"#,
        vec![
            Keyword(SQLite3Keyword::SELECT),
            Whitespace(false),
            Identifier("true".to_owned(), Some(SQLite3KeywordLikeIdentifier::TRUE)),
            Comma,
            Whitespace(false),
            Identifier("STRICT".to_owned(), Some(SQLite3KeywordLikeIdentifier::STRICT)),
        ],
    );
}

#[test]
fn test_tokenize() {
    // "CREATE TABLE t(c)": each token with its range, one after another
    let tokens = tokenize_with_range_location("CREATE TABLE t(c)").unwrap();
    let got = tokens.iter().map(|t| (t.range, t.value.clone())).collect::<Vec<_>>();
    assert_eq!(
        got,
        vec![
            (ZeroIndexedRange::new4(0, 0, 0, 6), Keyword(SQLite3Keyword::CREATE)),
            (ZeroIndexedRange::new4(0, 6, 0, 7), Whitespace(false)),
            (ZeroIndexedRange::new4(0, 7, 0, 12), Keyword(SQLite3Keyword::TABLE)),
            (ZeroIndexedRange::new4(0, 12, 0, 13), Whitespace(false)),
            (ZeroIndexedRange::new4(0, 13, 0, 14), Identifier("t".to_owned(), None)),
            (ZeroIndexedRange::new4(0, 14, 0, 15), LParen),
            (ZeroIndexedRange::new4(0, 15, 0, 16), Identifier("c".to_owned(), None)),
            (ZeroIndexedRange::new4(0, 16, 0, 17), RParen),
        ]
    );
}

#[test]
fn test_merge_whitespace() {
    // "   " is one whitespace token
    let tokens = tokenize_with_range_location("SELECT   1;").unwrap();
    let got = tokens.iter().map(|t| (t.range, t.value.clone())).collect::<Vec<_>>();
    assert_eq!(
        got,
        vec![
            (ZeroIndexedRange::new4(0, 0, 0, 6), Keyword(SQLite3Keyword::SELECT)),
            (ZeroIndexedRange::new4(0, 6, 0, 9), Whitespace(false)),
            (ZeroIndexedRange::new4(0, 9, 0, 10), NumericLiteral("1".to_owned())),
            (ZeroIndexedRange::new4(0, 10, 0, 11), SemiColon),
        ]
    );
}

#[test]
fn placeholders_are_classified() {
    test(
        "?1 :a @b $c ?",
        vec![
            Placeholder("?1".to_owned(), SQLite3PlaceholderKind::QuestionNumber),
            Whitespace(false),
            Placeholder(":a".to_owned(), SQLite3PlaceholderKind::ColonName),
            Whitespace(false),
            Placeholder("@b".to_owned(), SQLite3PlaceholderKind::AtName),
            Whitespace(false),
            Placeholder("$c".to_owned(), SQLite3PlaceholderKind::DollarName),
            Whitespace(false),
            Placeholder("?".to_owned(), SQLite3PlaceholderKind::Question),
        ],
    );
}

#[test]
fn tokenizer_error_has_zero_indexed_location() {
    let err = tokenize_with_range_location("SELECT\n 'a").unwrap_err();
    assert_eq!(err.location.line, 1);
    assert_eq!(err.location.column, 1);
    assert_eq!(err.message, "Unterminated string literal");
}

#[test]
fn last_token_ends_at_the_character_length_of_the_last_line() {
    let ts = tokenize_with_range_location("SELECT 'é'").unwrap();
    assert_eq!(ts.last().unwrap().range.end, ZeroIndexedLocation::new(0, 10));
    let ts = tokenize_with_range_location("SELECT\n'éé'").unwrap();
    assert_eq!(ts.last().unwrap().range.end, ZeroIndexedLocation::new(1, 4));
}
